use electric_client::{ElectricError, Offset};

#[test]
fn offset_parse_initial() {
    let o: Offset = "-1".parse().unwrap();
    assert_eq!(o, Offset::Initial);
}

#[test]
fn offset_parse_now() {
    let o: Offset = "now".parse().unwrap();
    assert_eq!(o, Offset::Now);
}

#[test]
fn offset_parse_at() {
    let o: Offset = "26800584_4".parse().unwrap();
    assert_eq!(
        o,
        Offset::At {
            tx: 26800584,
            op: 4
        }
    );
}

#[test]
fn offset_parse_zero() {
    let o: Offset = "0_0".parse().unwrap();
    assert_eq!(o, Offset::At { tx: 0, op: 0 });
}

#[test]
fn offset_parse_error() {
    let result: Result<Offset, _> = "not_valid_offset_xyz".parse();
    assert!(result.is_err());
}

#[test]
fn offset_display() {
    assert_eq!(Offset::Initial.to_string(), "-1");
    assert_eq!(Offset::Now.to_string(), "now");
    assert_eq!(Offset::At { tx: 100, op: 5 }.to_string(), "100_5");
}

#[test]
fn offset_ordering() {
    assert!(Offset::Initial < Offset::At { tx: 0, op: 0 });
    assert!(Offset::At { tx: 1, op: 0 } < Offset::At { tx: 2, op: 0 });
    assert!(Offset::At { tx: 1, op: 5 } > Offset::At { tx: 1, op: 3 });
    assert!(Offset::At { tx: 999, op: 0 } < Offset::Now);
}

#[test]
fn offset_inf_round_trips() {
    let o: Offset = "0_inf".parse().unwrap();
    assert_eq!(o, Offset::At { tx: 0, op: u64::MAX });
    assert_eq!(o.to_string(), "0_inf");
    assert!(Offset::At { tx: 0, op: 12 } < o);
    assert!(o < Offset::At { tx: 1, op: 0 });
}

#[test]
fn offset_text_round_trips() {
    for o in [
        Offset::Initial,
        Offset::Now,
        Offset::At { tx: 0, op: 0 },
        Offset::At { tx: 42, op: 7 },
        Offset::At { tx: u64::MAX, op: 3 },
    ] {
        let back: Offset = o.to_string().parse().unwrap();
        assert_eq!(back, o);
    }
}

#[test]
fn offset_parse_rejects_bad_text() {
    for s in ["", "_", "1", "1_", "_1", "1_x", "-2", "1_2_3", "18446744073709551616_0", "NOW"] {
        match s.parse::<Offset>() {
            Err(ElectricError::InvalidOffset(t)) => assert_eq!(t, s),
            other => panic!("{:?} parsed as {:?}", s, other),
        }
    }
}

#[test]
fn offset_default_is_initial() {
    assert_eq!(Offset::default(), Offset::Initial);
}
