//! The certificate chain and the private key that the server proves itself with.
//!
//! Both are read out of PEM files, whose bytes the caller hands over.

use crate::text;
use rustls::pki_types::PrivateKeyDer;
use vstd::prelude::*;

verus! {

// ---------------------------------------------------------------------------------------------
// The certificate chain
// ---------------------------------------------------------------------------------------------

/// The certificates of a list, each by its bytes.
pub open spec fn chain_view(list: Seq<Vec<u8>>) -> Seq<Seq<u8>> {
    Seq::new(list.len(), |i: int| list[i]@)
}

/// The certificates that `rustls_pemfile::certs` finds in a file, in order; nothing where it meets
/// an error.
pub uninterp spec fn pem_certs(data: Seq<u8>) -> Option<Seq<Seq<u8>>>;

/// `rustls_pemfile::certs`: the certificates among the PEM sections of a file, in order, each as its
/// DER bytes, or an error at the first section that cannot be read. What it finds is a function of
/// the bytes alone, called `pem_certs`.
#[verifier::external_body]
fn read_certs(data: &[u8]) -> (r: Option<Vec<Vec<u8>>>)
    ensures
        match r {
            Some(list) => pem_certs(data@) == Some(chain_view(list@)),
            None => pem_certs(data@) is None,
        },
{
    let found: Result<Vec<_>, _> = rustls_pemfile::certs(&mut &data[..]).collect();
    match found {
        Ok(list) => Some(list.iter().map(|c| c.to_vec()).collect()),
        Err(_) => None,
    }
}

/// Why a file gives no certificate chain.
#[derive(Debug, Clone, Copy, PartialEq, Eq, Structural)]
pub enum ChainError {
    /// A section of the file cannot be read.
    Unreadable,
    /// The file holds no certificate.
    Empty,
}

impl ChainError {
    /// What is reported of the file at this path.
    pub fn message(&self, path: &str) -> (r: String)
        ensures
            r@ == (match *self {
                ChainError::Unreadable => "parsing certificate chain"@,
                ChainError::Empty => "no certificates in "@ + path@,
            }),
    {
        match *self {
            ChainError::Unreadable => "parsing certificate chain".to_owned(),
            ChainError::Empty => {
                let mut s = "no certificates in ".to_owned();
                text::push_text(&mut s, path);
                s
            },
        }
    }
}

/// The chain, out of what was found in a file: there has to be a certificate in it.
pub fn chain_of(found: Option<Vec<Vec<u8>>>) -> (r: Result<Vec<Vec<u8>>, ChainError>)
    ensures
        match found {
            None => r == Err::<Vec<Vec<u8>>, ChainError>(ChainError::Unreadable),
            Some(list) => if list@.len() == 0 {
                r == Err::<Vec<Vec<u8>>, ChainError>(ChainError::Empty)
            } else {
                r == Ok::<Vec<Vec<u8>>, ChainError>(list)
            },
        },
{
    match found {
        None => Err(ChainError::Unreadable),
        Some(list) => if list.len() == 0 {
            Err(ChainError::Empty)
        } else {
            Ok(list)
        },
    }
}

/// The certificate chain in a file.
pub fn cert_chain(data: &[u8]) -> (r: Result<Vec<Vec<u8>>, ChainError>)
    ensures
        match pem_certs(data@) {
            None => r == Err::<Vec<Vec<u8>>, ChainError>(ChainError::Unreadable),
            Some(list) => if list.len() == 0 {
                r == Err::<Vec<Vec<u8>>, ChainError>(ChainError::Empty)
            } else {
                r matches Ok(v) && chain_view(v@) == list
            },
        },
{
    chain_of(read_certs(data))
}

// ---------------------------------------------------------------------------------------------
// The private key
// ---------------------------------------------------------------------------------------------

/// How a private key is encoded.
#[derive(Debug, Clone, Copy, PartialEq, Eq, Structural)]
pub enum KeyKind {
    /// "RSA PRIVATE KEY" in a PEM file.
    Pkcs1,
    /// "EC PRIVATE KEY" in a PEM file.
    Sec1,
    /// "PRIVATE KEY" in a PEM file.
    Pkcs8,
}

/// What a file says of a private key.
pub enum FoundKey {
    /// A section before any key cannot be read.
    Unreadable,
    /// There is none.
    Absent,
    Present { kind: KeyKind, der: Vec<u8> },
}

/// The first private key that `rustls_pemfile::private_key` finds in a file: nothing where it meets
/// an error, and no key where there is none.
pub uninterp spec fn pem_key(data: Seq<u8>) -> Option<Option<(KeyKind, Seq<u8>)>>;

/// What was found, by its views.
pub open spec fn key_view(found: FoundKey) -> Option<Option<(KeyKind, Seq<u8>)>> {
    match found {
        FoundKey::Unreadable => None,
        FoundKey::Absent => Some(None),
        FoundKey::Present { kind, der } => Some(Some((kind, der@))),
    }
}

/// `rustls_pemfile::private_key`: the first private key among the PEM sections of a file, of whatever
/// kind, as its DER bytes, or an error at a section before it that cannot be read. What it finds is a
/// function of the bytes alone, called `pem_key`. It finds no kind of key but the three.
#[verifier::external_body]
fn read_key(data: &[u8]) -> (r: FoundKey)
    ensures
        key_view(r) == pem_key(data@),
{
    let (kind, der) = match rustls_pemfile::private_key(&mut &data[..]) {
        Err(_) => return FoundKey::Unreadable,
        Ok(None) => return FoundKey::Absent,
        Ok(Some(PrivateKeyDer::Pkcs1(k))) => (KeyKind::Pkcs1, k.secret_pkcs1_der().to_vec()),
        Ok(Some(PrivateKeyDer::Sec1(k))) => (KeyKind::Sec1, k.secret_sec1_der().to_vec()),
        Ok(Some(PrivateKeyDer::Pkcs8(k))) => (KeyKind::Pkcs8, k.secret_pkcs8_der().to_vec()),
        Ok(Some(_)) => return FoundKey::Unreadable,
    };
    FoundKey::Present { kind, der }
}

/// Why a file gives no private key.
#[derive(Debug, Clone, Copy, PartialEq, Eq, Structural)]
pub enum KeyError {
    /// A section of the file cannot be read.
    Unreadable,
    /// The file holds no private key.
    Absent,
}

impl KeyError {
    /// What is reported of the file at this path.
    pub fn message(&self, path: &str) -> (r: String)
        ensures
            r@ == (match *self {
                KeyError::Unreadable => "parsing private key"@,
                KeyError::Absent => "no private key in "@ + path@,
            }),
    {
        match *self {
            KeyError::Unreadable => "parsing private key".to_owned(),
            KeyError::Absent => {
                let mut s = "no private key in ".to_owned();
                text::push_text(&mut s, path);
                s
            },
        }
    }
}

/// The key, out of what was found in a file.
pub fn key_of(found: FoundKey) -> (r: Result<(KeyKind, Vec<u8>), KeyError>)
    ensures
        match found {
            FoundKey::Unreadable => r == Err::<(KeyKind, Vec<u8>), KeyError>(KeyError::Unreadable),
            FoundKey::Absent => r == Err::<(KeyKind, Vec<u8>), KeyError>(KeyError::Absent),
            FoundKey::Present { kind, der } => r == Ok::<(KeyKind, Vec<u8>), KeyError>((kind, der)),
        },
{
    match found {
        FoundKey::Unreadable => Err(KeyError::Unreadable),
        FoundKey::Absent => Err(KeyError::Absent),
        FoundKey::Present { kind, der } => Ok((kind, der)),
    }
}

/// The private key in a file.
pub fn private_key(data: &[u8]) -> (r: Result<(KeyKind, Vec<u8>), KeyError>)
    ensures
        match pem_key(data@) {
            None => r == Err::<(KeyKind, Vec<u8>), KeyError>(KeyError::Unreadable),
            Some(None) => r == Err::<(KeyKind, Vec<u8>), KeyError>(KeyError::Absent),
            Some(Some((kind, der))) => r matches Ok(k) && k.0 == kind && k.1@ == der,
        },
{
    key_of(read_key(data))
}

} // verus!
