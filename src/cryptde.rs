//! The narrow interface to the crypto engine, and a null engine that
//! encrypts by prefixing the key.
use vstd::prelude::*;
use crate::bytes::copy_range;

verus! {

/// Why an encryption failed.
#[derive(Clone, Copy, Debug, PartialEq, Eq, Structural)]
pub enum CryptdeError {
    EmptyKey,
    EmptyData,
}

/// What an encryption returned, over views.
pub open spec fn crypt_view(r: Result<Vec<u8>, CryptdeError>) -> Result<Seq<u8>, CryptdeError> {
    match r {
        Ok(v) => Ok(v@),
        Err(e) => Err(e),
    }
}

/// The capabilities of the crypto engine that the gateway uses.
pub trait CryptDE {
    /// This node's public key.
    spec fn spec_public_key(&self) -> Seq<u8>;

    /// What `encode` returns for `data` encrypted for the holder of `key`.
    spec fn spec_encode(&self, key: Seq<u8>, data: Seq<u8>) -> Result<Seq<u8>, CryptdeError>;

    fn public_key(&self) -> (r: Vec<u8>)
        ensures
            r@ == self.spec_public_key(),
    ;

    fn encode(&self, key: &Vec<u8>, data: &Vec<u8>) -> (r: Result<Vec<u8>, CryptdeError>)
        ensures
            crypt_view(r) == self.spec_encode(key@, data@),
    ;
}

/// A crypto engine that does not encrypt: the ciphertext is the key
/// followed by the data.
pub struct CryptDENull {
    key: Vec<u8>,
}

impl CryptDENull {
    pub closed spec fn spec_key(&self) -> Seq<u8> {
        self.key@
    }

    pub fn new(key: Vec<u8>) -> (r: CryptDENull)
        ensures
            r.spec_key() == key@,
    {
        CryptDENull { key }
    }
}

impl CryptDE for CryptDENull {
    open spec fn spec_public_key(&self) -> Seq<u8> {
        self.spec_key()
    }

    open spec fn spec_encode(&self, key: Seq<u8>, data: Seq<u8>) -> Result<Seq<u8>, CryptdeError> {
        if key.len() == 0 {
            Err(CryptdeError::EmptyKey)
        } else if data.len() == 0 {
            Err(CryptdeError::EmptyData)
        } else {
            Ok(key + data)
        }
    }

    fn public_key(&self) -> (r: Vec<u8>) {
        copy_range(&self.key, 0, self.key.len())
    }

    fn encode(&self, key: &Vec<u8>, data: &Vec<u8>) -> (r: Result<Vec<u8>, CryptdeError>) {
        if key.len() == 0 {
            return Err(CryptdeError::EmptyKey);
        }
        if data.len() == 0 {
            return Err(CryptdeError::EmptyData);
        }
        let mut out = copy_range(key, 0, key.len());
        let mut i: usize = 0;
        while i < data.len()
            invariant
                i <= data@.len(),
                out@ == key@ + data@.subrange(0, i as int),
            decreases data@.len() - i,
        {
            out.push(data[i]);
            i = i + 1;
        }
        assert(data@.subrange(0, data@.len() as int) =~= data@);
        Ok(out)
    }
}

} // verus!
