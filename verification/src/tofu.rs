//! The trust-on-first-use certificate policy over a persistent key-value
//! tree: the first leaf certificate seen for a host is pinned; a later
//! mismatch is rejected; a match is accepted.

use vstd::prelude::*;

use crate::error::TofuError;
use vstd::string::StringSliceAdditionalSpecFns;

verus! {

#[verifier::external_type_specification]
#[verifier::external_body]
pub struct ExTree(sled::Tree);

/// The records the tree holds: leaf-certificate DER bytes keyed by the
/// bytes of the DNS name.
pub uninterp spec fn tree_entries(t: sled::Tree) -> Map<Seq<u8>, Seq<u8>>;

/// Relies on sled::Tree::get: the value stored under the key, if any;
/// a store failure is carried out as its message.
#[verifier::external_body]
fn tree_get(t: &sled::Tree, key: &str) -> (r: Result<Option<Vec<u8>>, String>)
    ensures
        match r {
            Ok(Some(v)) => tree_entries(*t).contains_key(key.spec_bytes()) && tree_entries(
                *t,
            )[key.spec_bytes()] == v@,
            Ok(None) => !tree_entries(*t).contains_key(key.spec_bytes()),
            Err(_) => true,
        },
{
    match t.get(key) {
        Ok(Some(v)) => Ok(Some(v.to_vec())),
        Ok(None) => Ok(None),
        Err(e) => Err(e.to_string()),
    }
}

/// Relies on sled::Tree::insert: stores the value under the key; after a
/// store failure nothing is claimed of the records.
#[verifier::external_body]
fn tree_insert(t: &mut sled::Tree, key: &str, val: &[u8]) -> (r: Result<(), String>)
    ensures
        match r {
            Ok(()) => tree_entries(*final (t)) == tree_entries(*old(t)).insert(
                key.spec_bytes(),
                val@,
            ),
            Err(_) => true,
        },
{
    match t.insert(key, val) {
        Ok(_) => Ok(()),
        Err(e) => Err(e.to_string()),
    }
}

/// Byte-for-byte equality of two certificates.
fn bytes_eq(a: &Vec<u8>, b: &Vec<u8>) -> (r: bool)
    ensures
        r == (a@ == b@),
{
    if a.len() != b.len() {
        return false;
    }
    let n = a.len();
    let mut i: usize = 0;
    while i < n
        invariant
            n == a@.len() == b@.len(),
            i <= n,
            forall|k: int| 0 <= k < i ==> a@[k] == b@[k],
        decreases n - i,
    {
        if a[i] != b[i] {
            return false;
        }
        i = i + 1;
    }
    proof {
        assert(a@ =~= b@);
    }
    true
}

/// The pinned-certificate store, shared across connections.
#[derive(Debug)]
pub struct TofuStore {
    tree: sled::Tree,
}

impl TofuStore {
    /// The host-to-certificate records, as a map over byte sequences.
    pub closed spec fn entries(&self) -> Map<Seq<u8>, Seq<u8>> {
        tree_entries(self.tree)
    }

    pub fn new(tree: sled::Tree) -> (r: TofuStore)
        ensures
            r.entries() == tree_entries(tree),
    {
        TofuStore { tree }
    }

    /// The trust-on-first-use check for one handshake: no certificates is
    /// an error; an unseen host pins the presented leaf; a pinned host
    /// must present the same leaf again, byte for byte.  A failing store
    /// operation surfaces as `Store` with its message.
    pub fn verify(&mut self, host: &str, presented: &Vec<Vec<u8>>) -> (r: Result<(), TofuError>)
        ensures
            presented@.len() == 0 <==> r == Err::<(), TofuError>(
                TofuError::NoCertificatesPresented,
            ),
            match r {
                Ok(()) => presented@.len() > 0 && {
                    let k = host.spec_bytes();
                    let leaf = presented@[0]@;
                    if old(self).entries().contains_key(k) {
                        old(self).entries()[k] == leaf && final (self).entries() == old(
                            self,
                        ).entries()
                    } else {
                        final (self).entries() == old(self).entries().insert(k, leaf)
                    }
                },
                Err(e) => match e {
                    TofuError::NoCertificatesPresented => final (self).entries() == old(
                        self,
                    ).entries(),
                    TofuError::CertNotValidForName => presented@.len() > 0 && old(
                        self,
                    ).entries().contains_key(host.spec_bytes()) && old(
                        self,
                    ).entries()[host.spec_bytes()] != presented@[0]@ && final (self).entries()
                        == old(self).entries(),
                    TofuError::Store(m) => true,
                },
            },
    {
        if presented.len() == 0 {
            return Err(TofuError::NoCertificatesPresented);
        }
        match tree_get(&self.tree, host) {
            Err(m) => Err(TofuError::Store(m)),
            Ok(Some(existing)) => {
                if bytes_eq(&existing, &presented[0]) {
                    Ok(())
                } else {
                    Err(TofuError::CertNotValidForName)
                }
            },
            Ok(None) => {
                match tree_insert(&mut self.tree, host, presented[0].as_slice()) {
                    Ok(()) => Ok(()),
                    Err(m) => Err(TofuError::Store(m)),
                }
            },
        }
    }
}

} // verus!
