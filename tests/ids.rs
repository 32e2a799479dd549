use kamu_core::dataset_id::{DatasetID, DatasetIDBuf};

#[test]
fn valid_identifiers_are_accepted() {
    assert!(DatasetID::try_from("kamu.test").is_ok());
    assert!(DatasetID::try_from("com.naturalearthdata.10m.admin0").is_ok());
    assert_eq!(DatasetIDBuf::try_from("foo.bar").unwrap().as_str(), "foo.bar");
    assert!(DatasetID::try_from("a.-b").is_ok());
    assert!(DatasetID::try_from("a._b").is_ok());
    assert!(DatasetID::try_from("a-b_c.d").is_ok());
}

#[test]
fn invalid_identifiers_are_rejected() {
    for s in ["", "1bad", "a..b", "a b", "a.", ".a", "Abc", "_a", "a.b."] {
        let e = DatasetID::try_from(s).unwrap_err();
        assert_eq!(e.invalid_id, s);
    }
}

#[test]
fn identifiers_compare_lexicographically() {
    let a = DatasetIDBuf::try_from("a.b").unwrap();
    let b = DatasetIDBuf::try_from("a.c").unwrap();
    assert!(a < b);
    assert_eq!(a, DatasetIDBuf::try_from("a.b").unwrap());
    assert_ne!(a, b);
    assert!(a.same_as(&a.copied()));
    let mut v = vec![
        DatasetIDBuf::try_from("zeta").unwrap(),
        DatasetIDBuf::try_from("alpha.2").unwrap(),
        DatasetIDBuf::try_from("alpha.10").unwrap(),
    ];
    v.sort();
    let names: Vec<&str> = v.iter().map(|i| i.as_str()).collect();
    assert_eq!(names, vec!["alpha.10", "alpha.2", "zeta"]);
    assert_eq!(DatasetIDBuf::new().as_str(), "");
    assert_eq!(DatasetIDBuf::default().as_str(), "");
    let borrowed = DatasetID::try_from("kamu.test").unwrap();
    assert_eq!(borrowed.as_str(), "kamu.test");
    assert_eq!(borrowed.to_owned(), DatasetIDBuf::try_from("kamu.test").unwrap());
}
