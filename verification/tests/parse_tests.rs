use kv::parse::{parse_kv_pair, KvPair};

#[test]
fn parse_kv_pair_works() {
    assert!(parse_kv_pair("a").is_err());
    assert_eq!(
        parse_kv_pair("a=1").unwrap(),
        KvPair {
            k: "a".into(),
            v: "1".into(),
        }
    );

    assert_eq!(
        parse_kv_pair("b=").unwrap(),
        KvPair {
            k: "b".into(),
            v: "".into()
        }
    );
}

#[test]
fn parse_kv_pair_takes_first_two_pieces() {
    let p = parse_kv_pair("a=1=2").unwrap();
    assert_eq!(p.k, "a");
    assert_eq!(p.v, "1");

    let p = parse_kv_pair("=x").unwrap();
    assert_eq!(p.k, "");
    assert_eq!(p.v, "x");
}
