//! Picking the private key and certificate chain out of PEM text.

use vstd::prelude::*;

verus! {

/// The RSA (PKCS#1) keys of a PEM text, in order, or `None` when the text is malformed.
pub uninterp spec fn pem_rsa_keys(pem: Seq<u8>) -> Option<Seq<Seq<u8>>>;

/// The PKCS#8 keys of a PEM text, in order, or `None` when the text is malformed.
pub uninterp spec fn pem_pkcs8_keys(pem: Seq<u8>) -> Option<Seq<Seq<u8>>>;

/// The EC (SEC1) keys of a PEM text, in order, or `None` when the text is malformed.
pub uninterp spec fn pem_ec_keys(pem: Seq<u8>) -> Option<Seq<Seq<u8>>>;

/// The certificates of a PEM text, in order, or `None` when the text is malformed.
pub uninterp spec fn pem_certs(pem: Seq<u8>) -> Option<Seq<Seq<u8>>>;

pub open spec fn der_views(v: Seq<Vec<u8>>) -> Seq<Seq<u8>> {
    v.map_values(|d: Vec<u8>| d@)
}

pub open spec fn found_view(r: Option<Vec<Vec<u8>>>) -> Option<Seq<Seq<u8>>> {
    match r {
        Some(v) => Some(der_views(v@)),
        None => None,
    }
}

/// Relies on `rustls_pemfile::rsa_private_keys`: the DER of each
/// `RSA PRIVATE KEY` section; an error on malformed text becomes `None`.
#[verifier::external_body]
fn read_rsa_keys(pem: &Vec<u8>) -> (r: Option<Vec<Vec<u8>>>)
    ensures
        found_view(r) == pem_rsa_keys(pem@),
{
    rustls_pemfile::rsa_private_keys(&mut pem.as_slice()).ok()
}

/// Relies on `rustls_pemfile::pkcs8_private_keys`: the DER of each
/// `PRIVATE KEY` section; an error on malformed text becomes `None`.
#[verifier::external_body]
fn read_pkcs8_keys(pem: &Vec<u8>) -> (r: Option<Vec<Vec<u8>>>)
    ensures
        found_view(r) == pem_pkcs8_keys(pem@),
{
    rustls_pemfile::pkcs8_private_keys(&mut pem.as_slice()).ok()
}

/// Relies on `rustls_pemfile::ec_private_keys`: the DER of each
/// `EC PRIVATE KEY` section; an error on malformed text becomes `None`.
#[verifier::external_body]
fn read_ec_keys(pem: &Vec<u8>) -> (r: Option<Vec<Vec<u8>>>)
    ensures
        found_view(r) == pem_ec_keys(pem@),
{
    rustls_pemfile::ec_private_keys(&mut pem.as_slice()).ok()
}

/// Relies on `rustls_pemfile::certs`: the DER of each `CERTIFICATE`
/// section; an error on malformed text becomes `None`.
#[verifier::external_body]
fn read_certs(pem: &Vec<u8>) -> (r: Option<Vec<Vec<u8>>>)
    ensures
        found_view(r) == pem_certs(pem@),
{
    rustls_pemfile::certs(&mut pem.as_slice()).ok()
}

/// Why no key pair could be read.
#[derive(Debug, Clone, Copy, PartialEq, Eq)]
pub enum TlsError {
    /// The key file holds no RSA, PKCS#8 or EC key.
    NoPrivateKey,
    /// The certificate file is not PEM.
    InvalidCertificates,
}

/// The first key of a parse that found at least one.
pub open spec fn first_found(found: Option<Seq<Seq<u8>>>) -> Option<Seq<u8>> {
    match found {
        Some(ks) => if ks.len() > 0 {
            Some(ks[0])
        } else {
            None
        },
        None => None,
    }
}

/// The key a PEM text yields: its first RSA key, else its first PKCS#8 key,
/// else its first EC key.
pub open spec fn chosen_key(pem: Seq<u8>) -> Option<Seq<u8>> {
    match first_found(pem_rsa_keys(pem)) {
        Some(k) => Some(k),
        None => match first_found(pem_pkcs8_keys(pem)) {
            Some(k) => Some(k),
            None => first_found(pem_ec_keys(pem)),
        },
    }
}

/// The first key among `found`, if any.
pub fn first_key(found: Option<Vec<Vec<u8>>>) -> (r: Option<Vec<u8>>)
    ensures
        match r {
            Some(k) => first_found(found_view(found)) == Some(k@),
            None => first_found(found_view(found)) is None,
        },
{
    match found {
        Some(mut ks) => if ks.len() > 0 {
            let ghost all = ks@;
            let k = ks.swap_remove(0);
            assert(k == all[0]);
            Some(k)
        } else {
            None
        },
        None => None,
    }
}

/// The private key of a PEM text, tried as RSA, then PKCS#8, then EC; the
/// first kind that yields a key wins, and its first key is taken.
pub fn private_key_from_pem(pem: &Vec<u8>) -> (r: Result<Vec<u8>, TlsError>)
    ensures
        match r {
            Ok(k) => chosen_key(pem@) == Some(k@),
            Err(e) => chosen_key(pem@) is None && e == TlsError::NoPrivateKey,
        },
{
    if let Some(k) = first_key(read_rsa_keys(pem)) {
        return Ok(k);
    }
    if let Some(k) = first_key(read_pkcs8_keys(pem)) {
        return Ok(k);
    }
    match first_key(read_ec_keys(pem)) {
        Some(k) => Ok(k),
        None => Err(TlsError::NoPrivateKey),
    }
}

/// Every certificate of a PEM text, in order.
pub fn cert_chain_from_pem(pem: &Vec<u8>) -> (r: Result<Vec<Vec<u8>>, TlsError>)
    ensures
        match r {
            Ok(c) => pem_certs(pem@) == Some(der_views(c@)),
            Err(e) => pem_certs(pem@) is None && e == TlsError::InvalidCertificates,
        },
{
    match read_certs(pem) {
        Some(c) => Ok(c),
        None => Err(TlsError::InvalidCertificates),
    }
}

} // verus!
