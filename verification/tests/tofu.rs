use titan::error::TofuError;
use titan::tofu::TofuStore;

fn temp_store() -> TofuStore {
    let db = sled::Config::new().temporary(true).open().expect("temporary store");
    let tree = db.open_tree("certs").expect("certs tree");
    TofuStore::new(tree)
}

#[test]
fn first_use_pins_then_matches_then_rejects() {
    let mut store = temp_store();
    let d1: Vec<u8> = vec![1, 2, 3, 4];
    let d2: Vec<u8> = vec![9, 9, 9];

    // First sight records the leaf and succeeds.
    assert_eq!(store.verify("host.example", &vec![d1.clone()]), Ok(()));
    // The same leaf again succeeds.
    assert_eq!(store.verify("host.example", &vec![d1.clone()]), Ok(()));
    // A different leaf is rejected...
    assert_eq!(
        store.verify("host.example", &vec![d2.clone()]),
        Err(TofuError::CertNotValidForName)
    );
    // ...and the record is unchanged: the original still matches.
    assert_eq!(store.verify("host.example", &vec![d1.clone()]), Ok(()));
}

#[test]
fn no_certificates_is_an_error() {
    let mut store = temp_store();
    assert_eq!(
        store.verify("host.example", &vec![]),
        Err(TofuError::NoCertificatesPresented)
    );
}

#[test]
fn hosts_are_independent() {
    let mut store = temp_store();
    let d1: Vec<u8> = vec![1];
    let d2: Vec<u8> = vec![2];
    assert_eq!(store.verify("a.example", &vec![d1.clone()]), Ok(()));
    assert_eq!(store.verify("b.example", &vec![d2.clone()]), Ok(()));
    assert_eq!(store.verify("a.example", &vec![d1]), Ok(()));
    assert_eq!(store.verify("b.example", &vec![d2]), Ok(()));
}

#[test]
fn only_the_leaf_certificate_counts() {
    let mut store = temp_store();
    let leaf: Vec<u8> = vec![7, 7];
    let intermediate: Vec<u8> = vec![8, 8];
    assert_eq!(
        store.verify("c.example", &vec![leaf.clone(), intermediate.clone()]),
        Ok(())
    );
    // A different intermediate chain with the same leaf still matches.
    assert_eq!(store.verify("c.example", &vec![leaf, vec![5]]), Ok(()));
}
