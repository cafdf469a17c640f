//! The certificate of the web interface, and the TLS configuration that is made
//! of it.

use crate::text::{starts_with, texts};
use rustls::pki_types::{CertificateDer, PrivateKeyDer};
use vstd::prelude::*;

verus! {

/// The file of the certificate.
pub const CERT: &'static str = "/var/lib/fwos/ui-cert.pem";

/// The file of its key.
pub const KEY: &'static str = "/var/lib/fwos/ui-key.pem";

/// The name that the certificate is made for.
pub const SUBJECT: &'static str = "fwos";

/// A private key, in one of its encodings.
pub enum PrivateKey {
    Pkcs1(Vec<u8>),
    Sec1(Vec<u8>),
    Pkcs8(Vec<u8>),
}

pub enum PrivateKeyView {
    Pkcs1(Seq<u8>),
    Sec1(Seq<u8>),
    Pkcs8(Seq<u8>),
}

impl View for PrivateKey {
    type V = PrivateKeyView;

    open spec fn view(&self) -> PrivateKeyView {
        match self {
            PrivateKey::Pkcs1(d) => PrivateKeyView::Pkcs1(d@),
            PrivateKey::Sec1(d) => PrivateKeyView::Sec1(d@),
            PrivateKey::Pkcs8(d) => PrivateKeyView::Pkcs8(d@),
        }
    }
}

pub open spec fn blobs(v: Seq<Vec<u8>>) -> Seq<Seq<u8>> {
    Seq::new(v.len(), |i: int| v[i]@)
}

// ---------------------------------------------------------------------------
// What the TLS crates do
// ---------------------------------------------------------------------------

/// The certificates that `rustls_pemfile::certs` finds in a PEM document, or
/// the text of its first error.
pub uninterp spec fn pem_certificates(pem: Seq<u8>) -> Result<Seq<Seq<u8>>, Seq<char>>;

/// Calls `rustls_pemfile::certs`. The claim is that what it yields depends on
/// the bytes alone.
#[verifier::external_body]
fn certificates(pem: &[u8]) -> (r: Result<Vec<Vec<u8>>, String>)
    ensures
        match r {
            Ok(v) => pem_certificates(pem@) == Ok::<Seq<Seq<u8>>, Seq<char>>(blobs(v@)),
            Err(e) => pem_certificates(pem@) == Err::<Seq<Seq<u8>>, Seq<char>>(e@),
        },
{
    let mut rest = pem;
    let found: Result<Vec<_>, _> = rustls_pemfile::certs(&mut rest).map(|c| c.map(|c| c.to_vec())).collect();
    found.map_err(|e| e.to_string())
}

/// The first private key that `rustls_pemfile::private_key` finds in a PEM
/// document, if any, or the text of its error.
pub uninterp spec fn pem_key(pem: Seq<u8>) -> Result<Option<PrivateKeyView>, Seq<char>>;

/// Calls `rustls_pemfile::private_key`. The claim is that the outcome depends
/// on the bytes alone.
#[verifier::external_body]
fn private_key(pem: &[u8]) -> (r: Result<Option<PrivateKey>, String>)
    ensures
        match r {
            Ok(Some(k)) => pem_key(pem@) == Ok::<Option<PrivateKeyView>, Seq<char>>(Some(k@)),
            Ok(None) => pem_key(pem@) == Ok::<Option<PrivateKeyView>, Seq<char>>(None),
            Err(e) => pem_key(pem@) == Err::<Option<PrivateKeyView>, Seq<char>>(e@),
        },
{
    let mut rest = pem;
    match rustls_pemfile::private_key(&mut rest) {
        Ok(Some(PrivateKeyDer::Pkcs1(k))) => Ok(Some(PrivateKey::Pkcs1(k.secret_pkcs1_der().to_vec()))),
        Ok(Some(PrivateKeyDer::Sec1(k))) => Ok(Some(PrivateKey::Sec1(k.secret_sec1_der().to_vec()))),
        Ok(Some(PrivateKeyDer::Pkcs8(k))) => Ok(Some(PrivateKey::Pkcs8(k.secret_pkcs8_der().to_vec()))),
        Ok(_) => Ok(None),
        Err(e) => Err(e.to_string()),
    }
}

#[verifier::external_type_specification]
#[verifier::external_body]
pub struct ExServerConfig(rustls::ServerConfig);

/// The certificates that a configuration shows to clients.
pub uninterp spec fn shown_certificates(c: rustls::ServerConfig) -> Seq<Seq<u8>>;

/// The key that a configuration was made with.
pub uninterp spec fn signing_key(c: rustls::ServerConfig) -> PrivateKeyView;

/// The protocols that a configuration offers.
pub uninterp spec fn offered_protocols(c: rustls::ServerConfig) -> Seq<Seq<u8>>;

/// Calls `with_single_cert` of a `rustls` builder for servers that ask clients
/// for no certificate, with the provider of `rustls::crypto::ring` and the
/// default versions, and sets `alpn_protocols`. The claim is that a
/// configuration is made of just what is handed over. Which certificates and
/// keys are taken is not said: the key is checked with the help of the system's
/// randomness.
#[verifier::external_body]
fn serve_with(certs: Vec<Vec<u8>>, key: PrivateKey, protocols: Vec<Vec<u8>>) -> (r: Result<
    rustls::ServerConfig,
    String,
>)
    ensures
        r is Ok ==> shown_certificates(r->Ok_0) == blobs(certs@),
        r is Ok ==> signing_key(r->Ok_0) == key@,
        r is Ok ==> offered_protocols(r->Ok_0) == blobs(protocols@),
{
    let chain = certs.into_iter().map(CertificateDer::from).collect();
    let key = match key {
        PrivateKey::Pkcs1(d) => PrivateKeyDer::Pkcs1(d.into()),
        PrivateKey::Sec1(d) => PrivateKeyDer::Sec1(d.into()),
        PrivateKey::Pkcs8(d) => PrivateKeyDer::Pkcs8(d.into()),
    };
    let mut config = rustls::ServerConfig::builder_with_provider(rustls::crypto::ring::default_provider().into())
        .with_safe_default_protocol_versions()
        .and_then(|builder| builder.with_no_client_auth().with_single_cert(chain, key))
        .map_err(|e| e.to_string())?;
    config.alpn_protocols = protocols;
    Ok(config)
}

/// The names that a certificate was made for.
pub uninterp spec fn made_for(certificate: Seq<char>) -> Seq<Seq<char>>;

/// The key that a certificate was signed with.
pub uninterp spec fn key_of(certificate: Seq<char>) -> Seq<char>;

/// Calls `rcgen::generate_simple_self_signed`, and gives the certificate and
/// its key as PEM texts. The claim is that the certificate is made for the
/// names that are handed over, and that the key is the one that it was signed
/// with. Nothing is said of when there is a certificate, nor of which it is:
/// the key is random.
#[verifier::external_body]
fn self_signed(names: Vec<String>) -> (r: Result<(String, String), String>)
    ensures
        r is Ok ==> made_for((r->Ok_0).0@) == texts(names@),
        r is Ok ==> (r->Ok_0).1@ == key_of((r->Ok_0).0@),
{
    match rcgen::generate_simple_self_signed(names) {
        Ok(pair) => Ok((pair.cert.pem(), pair.key_pair.serialize_pem())),
        Err(e) => Err(e.to_string()),
    }
}

// ---------------------------------------------------------------------------
// The configuration
// ---------------------------------------------------------------------------

/// What is said where no certificate could be made.
pub fn generation_failure(error: &str) -> (r: String)
    ensures
        r@ == "generate cert: "@ + error@,
{
    "generate cert: ".to_owned().concat(error)
}

/// What is said where the certificate or the key is not taken.
pub fn configuration_failure(error: &str) -> (r: String)
    ensures
        r@ == "tls cert: "@ + error@,
{
    "tls cert: ".to_owned().concat(error)
}

/// A certificate for the web interface and the key that it was signed with, as
/// PEM texts.
pub fn make_certificate() -> (r: Result<(String, String), String>)
    ensures
        match r {
            Ok(pair) => made_for(pair.0@) == seq![SUBJECT@] && pair.1@ == key_of(pair.0@),
            Err(e) => starts_with(e@, "generate cert: "@),
        },
{
    let names = vec![SUBJECT.to_owned()];
    assert(texts(names@) == seq![SUBJECT@]);
    match self_signed(names) {
        Ok(pair) => Ok(pair),
        Err(e) => {
            let error = generation_failure(e.as_str());
            assert(error@.take("generate cert: "@.len() as int) == "generate cert: "@);
            Err(error)
        },
    }
}

/// What a configuration is made of, where both files hold what they should:
/// `certs` and `key` are what was found in them.
pub fn certificate_and_key(
    certs: Result<Vec<Vec<u8>>, String>,
    key: Result<Option<PrivateKey>, String>,
) -> (r: Result<(Vec<Vec<u8>>, PrivateKey), String>)
    ensures
        match (certs, key) {
            (Err(e), _) => r matches Err(x) && x@ == "parse "@ + CERT@ + ": "@ + e@,
            (_, Err(e)) => r matches Err(x) && x@ == "parse "@ + KEY@ + ": "@ + e@,
            (_, Ok(None)) => r matches Err(x) && x@ == "no private key in "@ + KEY@,
            (Ok(c), Ok(Some(k))) => r == Ok::<(Vec<Vec<u8>>, PrivateKey), String>((c, k)),
        },
{
    match (certs, key) {
        (Err(e), _) => Err("parse ".to_owned().concat(CERT).concat(": ").concat(e.as_str())),
        (_, Err(e)) => Err("parse ".to_owned().concat(KEY).concat(": ").concat(e.as_str())),
        (_, Ok(None)) => Err("no private key in ".to_owned().concat(KEY)),
        (Ok(c), Ok(Some(k))) => Ok((c, k)),
    }
}

/// `http/1.1`, in ASCII.
pub open spec fn http_protocol() -> Seq<u8> {
    seq![104u8, 116, 116, 112, 47, 49, 46, 49]
}

/// The TLS configuration of the web interface, from what the two files hold: it
/// shows the certificates of the one, signs with the key of the other, and
/// offers HTTP alone.
pub fn tls_config(cert_pem: &[u8], key_pem: &[u8]) -> (r: Result<rustls::ServerConfig, String>)
    ensures
        match (pem_certificates(cert_pem@), pem_key(key_pem@)) {
            (Err(e), _) => r matches Err(x) && x@ == "parse "@ + CERT@ + ": "@ + e,
            (_, Err(e)) => r matches Err(x) && x@ == "parse "@ + KEY@ + ": "@ + e,
            (_, Ok(None)) => r matches Err(x) && x@ == "no private key in "@ + KEY@,
            (Ok(certs), Ok(Some(key))) => match r {
                Ok(c) => shown_certificates(c) == certs && signing_key(c) == key && offered_protocols(c)
                    == seq![http_protocol()],
                Err(x) => starts_with(x@, "tls cert: "@),
            },
        },
{
    let (certs, key) = match certificate_and_key(certificates(cert_pem), private_key(key_pem)) {
        Ok(both) => both,
        Err(e) => return Err(e),
    };
    let http: Vec<u8> = vec![104, 116, 116, 112, 47, 49, 46, 49];
    assert(http@ == http_protocol());
    let protocols = vec![http];
    assert(blobs(protocols@) == seq![http_protocol()]);
    match serve_with(certs, key, protocols) {
        Ok(c) => Ok(c),
        Err(e) => {
            let error = configuration_failure(e.as_str());
            assert(error@.take("tls cert: "@.len() as int) == "tls cert: "@);
            Err(error)
        },
    }
}

} // verus!
