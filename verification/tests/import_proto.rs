use subrosa::import::PgpImportBytes;
use subrosa::proto::SubrosaMessage;
use subrosa::InternalErr;

#[test]
fn simple_read_exact() {
    let reference: Vec<u8> = vec![1, 2, 3, 4, 5, 6, 7, 8, 9];
    let mut out = vec![0; reference.len()];
    let mut i = PgpImportBytes::new();
    i.accept(reference.clone()).unwrap();
    i.read_exact(&mut out).unwrap();
    assert_eq!(out, reference);
}

#[test]
fn simple_read() {
    let reference: Vec<u8> = vec![1, 2, 3, 4, 5, 6, 7, 8, 9];
    let mut out = vec![0; reference.len() - 4];
    let mut i = PgpImportBytes::new();
    i.accept(reference.clone()).unwrap();
    i.read(&mut out).unwrap();
    assert_eq!(out[..], reference[..reference.len() - 4]);
    let mut out = vec![0; 4];

    i.read(&mut out).unwrap();

    assert_eq!(out[..], reference[reference.len() - 4..])
}

#[test]
fn multiple_read() {
    let mut i = PgpImportBytes::new();
    for _ in 0..20 {
        let reference: Vec<u8> = vec![1, 2, 3, 4, 5, 6, 7, 8, 9];
        let mut out = vec![0; reference.len() - 4];
        i.accept(reference.clone()).unwrap();
        i.read(&mut out).unwrap();
        assert_eq!(out[..], reference[..reference.len() - 4]);
        let mut out = vec![0; 4];

        i.read(&mut out).unwrap();

        assert_eq!(out[..], reference[reference.len() - 4..])
    }
}

#[test]
fn multiple_partial_read() {
    let reference: Vec<u8> = vec![1, 2, 3, 4, 5, 6, 7, 8, 9];
    let mut i = PgpImportBytes::new();

    for _ in 0..20 {
        i.accept(reference.clone()).unwrap();
    }

    for _ in 0..20 {
        let mut out = vec![0; reference.len() - 4];
        i.read(&mut out).unwrap();
        assert_eq!(out[..], reference[..reference.len() - 4]);
        let mut out = vec![0; 4];

        i.read(&mut out).unwrap();

        assert_eq!(out[..], reference[reference.len() - 4..])
    }
}

#[test]
fn multiple_partial_read_exact() {
    let reference: Vec<u8> = vec![1, 2, 3, 4, 5, 6, 7, 8, 9];
    let mut i = PgpImportBytes::new();

    for _ in 0..20 {
        i.accept(reference.clone()).unwrap();
    }

    for _ in 0..20 {
        let mut out = vec![0; reference.len()];
        i.read_exact(&mut out).unwrap();
        assert_eq!(out, reference);
    }
}

#[test]
fn read_fails_when_nothing_is_queued() {
    let mut i = PgpImportBytes::new();
    let mut out = vec![0; 4];
    match i.read(&mut out) {
        Err(InternalErr::Generic(_)) => {}
        other => panic!("expected Generic, got {:?}", other),
    }
    match i.read_exact(&mut out) {
        Err(InternalErr::Generic(_)) => {}
        other => panic!("expected Generic, got {:?}", other),
    }
}

#[test]
fn parse_encode() {
    let mut body = Vec::new();
    body.extend_from_slice(b"test group");
    body.push(0);
    body.extend_from_slice(b"test description");
    let ng = SubrosaMessage::Newsgroup(body.clone());

    let out = ng.encode_to_vec().unwrap();

    let decode = SubrosaMessage::parse(&out).unwrap();
    match decode {
        SubrosaMessage::Newsgroup(payload) => assert_eq!(payload, body),
        other => panic!("expected a newsgroup message, got {:?}", other),
    }
}

#[test]
fn parse_rejects_short_frames() {
    match SubrosaMessage::parse(&vec![0, 0]) {
        Err(InternalErr::ParseError) => {}
        other => panic!("expected ParseError, got {:?}", other),
    }
}

#[test]
fn type_prefix_roundtrip_all_kinds() {
    let cases = vec![
        SubrosaMessage::MessageType(vec![7]),
        SubrosaMessage::Post(vec![8, 9]),
        SubrosaMessage::User(vec![]),
        SubrosaMessage::Newsgroup(vec![1]),
    ];
    for m in cases {
        let bytes = m.encode_to_vec().unwrap();
        let back = SubrosaMessage::parse(&bytes).unwrap();
        let same = matches!(
            (&m, &back),
            (SubrosaMessage::MessageType(_), SubrosaMessage::MessageType(_))
                | (SubrosaMessage::Post(_), SubrosaMessage::Post(_))
                | (SubrosaMessage::User(_), SubrosaMessage::User(_))
                | (SubrosaMessage::Newsgroup(_), SubrosaMessage::Newsgroup(_))
        );
        assert!(same);
    }
}
