//! PEM documents, certificates and signing keys.
use vstd::prelude::*;
use rcgen::{CertificateParams, DistinguishedName, DnType, KeyPair, RsaKeySize, SigningKey};
use rcgen::PKCS_RSA_SHA256;
use rustls::pki_types::{CertificateDer, PrivateKeyDer, PrivatePkcs8KeyDer};
use x509_parser::certificate::X509Certificate;
use x509_parser::prelude::FromDer;
use crate::text::texts;

verus! {

/// The settings of a TLS server, of which nothing is known here.
#[verifier::external_type_specification]
#[verifier::external_body]
pub struct ExServerConfig(rustls::ServerConfig);

/// The tag and the contents of the PEM document in `text`.
pub uninterp spec fn pem_document(text: Seq<char>) -> Option<(Seq<char>, Seq<u8>)>;

/// The PEM document with the given tag and contents.
pub uninterp spec fn pem_text(tag: Seq<char>, contents: Seq<u8>) -> Seq<char>;

/// The signature of the X.509 certificate that `der` begins with.
pub uninterp spec fn certificate_signature(der: Seq<u8>) -> Option<Seq<u8>>;

/// The DER form of the private key in the PEM document `text`.
pub uninterp spec fn private_key(text: Seq<char>) -> Option<Seq<u8>>;

/// The DER form of the certificate for the given names that the RSA key in
/// `key_pem` signs for itself.
pub uninterp spec fn self_signed_der(
    key_pem: Seq<char>,
    subject_names: Seq<Seq<char>>,
    common_name: Seq<char>,
) -> Option<Seq<u8>>;

/// The signature of the message by the RSA key in the PEM document `key_pem`,
/// where it holds such a key in PKCS #8 form.
pub uninterp spec fn rsa_signature(key_pem: Seq<char>, message: Seq<u8>) -> Option<Seq<u8>>;

/// `pem::parse`: tag and contents of the first PEM document of a text. Trusted:
/// the outcome depends on the text alone.
#[verifier::external_body]
pub(crate) fn pem_parse(text: &str) -> (document: Option<(String, Vec<u8>)>)
    ensures
        match document {
            Some((tag, contents)) => pem_document(text@) == Some((tag@, contents@)),
            None => pem_document(text@) is None,
        },
{
    let document = pem::parse(text).ok()?;
    Some((document.tag().to_string(), document.contents().to_vec()))
}

/// `pem::encode`: a PEM document. Trusted: it depends on tag and contents alone,
/// and a certificate document parses to its tag and contents.
#[verifier::external_body]
pub(crate) fn pem_encode(tag: &str, contents: &[u8]) -> (text: String)
    ensures
        text@ == pem_text(tag@, contents@),
        tag@ == "CERTIFICATE"@ ==> pem_document(text@) == Some((tag@, contents@)),
{
    pem::encode(&pem::Pem::new(tag, contents))
}

/// `x509_parser`'s `X509Certificate::from_der`: the signature of a certificate.
/// Trusted: the outcome depends on the bytes alone.
#[verifier::external_body]
pub(crate) fn read_certificate_signature(der: &[u8]) -> (signature: Option<Vec<u8>>)
    ensures
        match signature {
            Some(bytes) => certificate_signature(der@) == Some(bytes@),
            None => certificate_signature(der@) is None,
        },
{
    let (_, certificate) = X509Certificate::from_der(der).ok()?;
    Some(certificate.signature_value.data.to_vec())
}

/// `rcgen::KeyPair::from_pem` and its `serialize_der`: the private key that a PEM
/// document holds. Trusted: the outcome depends on the text alone.
#[verifier::external_body]
pub(crate) fn read_private_key(text: &str) -> (der: Option<Vec<u8>>)
    ensures
        match der {
            Some(bytes) => private_key(text@) == Some(bytes@),
            None => private_key(text@) is None,
        },
{
    Some(KeyPair::from_pem(text).ok()?.serialize_der())
}

/// `rcgen::KeyPair::generate_rsa_for`: a fresh RSA key of 2048 bits, in DER and
/// PEM form. Trusted: reading the PEM form gives the DER form. The key is random.
#[verifier::external_body]
pub(crate) fn generate_rsa_key() -> (key: Option<(Vec<u8>, String)>)
    ensures
        key matches Some((der, pem)) ==> private_key(pem@) == Some(der@),
{
    let key = KeyPair::generate_rsa_for(&PKCS_RSA_SHA256, RsaKeySize::_2048).ok()?;
    Some((key.serialize_der(), key.serialize_pem()))
}

/// `rcgen::CertificateParams::self_signed`: a certificate for the given names,
/// signed with the given RSA key, in DER and PEM form. Trusted: the DER form
/// depends on the key and the names alone, since such signatures are not random
/// and the serial number is a digest of the key, and the PEM form parses to the
/// DER form. What the certificate says is left unsaid.
#[verifier::external_body]
pub(crate) fn self_signed_certificate(
    key_pem: &str,
    subject_names: Vec<String>,
    common_name: &str,
) -> (certificate: Option<(Vec<u8>, String)>)
    ensures
        match certificate {
            Some((der, pem)) => {
                &&& self_signed_der(key_pem@, texts(subject_names@), common_name@) == Some(der@)
                &&& pem_document(pem@) == Some(("CERTIFICATE"@, der@))
            },
            None => self_signed_der(key_pem@, texts(subject_names@), common_name@) is None,
        },
{
    let key = KeyPair::from_pkcs8_pem_and_sign_algo(key_pem, &PKCS_RSA_SHA256).ok()?;
    let mut params = CertificateParams::new(subject_names).ok()?;
    params.distinguished_name = DistinguishedName::new();
    params.distinguished_name.push(DnType::CommonName, common_name);
    let certificate = params.self_signed(&key).ok()?;
    Some((certificate.der().to_vec(), certificate.pem()))
}

/// `rcgen::SigningKey::sign` with an RSA key in PKCS #8 form: a signature of the
/// message by RSA PKCS #1 with SHA-256. Trusted: such a signature is not random.
#[verifier::external_body]
pub(crate) fn rsa_sign(key_pem: &str, message: &[u8]) -> (signature: Option<Vec<u8>>)
    ensures
        match signature {
            Some(bytes) => rsa_signature(key_pem@, message@) == Some(bytes@),
            None => rsa_signature(key_pem@, message@) is None,
        },
{
    let key = KeyPair::from_pkcs8_pem_and_sign_algo(key_pem, &PKCS_RSA_SHA256).ok()?;
    key.sign(message).ok()
}

/// `rcgen::SigningKey::sign` with a key of any kind. For some kinds the signature
/// is random, so nothing is said of it.
#[verifier::external_body]
pub(crate) fn sign_message(key_der: &[u8], message: &[u8]) -> (signature: Option<Vec<u8>>) {
    KeyPair::try_from(key_der).ok()?.sign(message).ok()
}

/// What a TLS server shows and proves itself with: a certificate and its key.
#[derive(Debug, PartialEq, Eq)]
pub struct TlsMaterial {
    pub cert_der: Vec<u8>,
    pub key_der: Vec<u8>,
}

/// `rustls::ServerConfig::builder` and `with_single_cert`: the settings of a TLS
/// server that shows the given certificate and holds the given key. Whether there
/// are any depends on the cryptography of the process too, so nothing is said of it.
#[verifier::external_body]
pub(crate) fn tls_server_config(material: TlsMaterial) -> (config: Option<rustls::ServerConfig>) {
    rustls::ServerConfig::builder()
        .with_no_client_auth()
        .with_single_cert(
            vec![CertificateDer::from(material.cert_der)],
            PrivateKeyDer::from(PrivatePkcs8KeyDer::from(material.key_der)),
        )
        .ok()
}

} // verus!
