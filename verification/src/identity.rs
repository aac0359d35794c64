//! The certificate and the key by which clients know the host.
use vstd::prelude::*;
use vstd::string::*;
use crate::bytes::{copy_bytes, optional_bytes};
use crate::certificate::{
    certificate_signature, generate_rsa_key, pem_document, pem_parse, private_key,
    read_certificate_signature, read_private_key, rsa_sign, rsa_signature, self_signed_certificate,
    self_signed_der, sign_message, tls_server_config, TlsMaterial,
};
use crate::config::SunriseConfig;
use crate::text::{optional_text, texts};

verus! {

/// Why there is no identity.
#[derive(Clone, Copy, Debug, PartialEq, Eq, Structural)]
pub enum IdentityError {
    /// The kept certificate is no PEM document.
    CertificatePem,
    /// The kept private key cannot be read.
    PrivateKey,
    /// The certificate cannot be read.
    Certificate,
    /// No key could be made.
    KeyGeneration,
    /// No certificate could be made.
    SelfSigning,
    /// The key cannot sign.
    Signing,
    /// Certificate and key make no TLS server.
    TlsConfig,
}

/// The certificate and the private key of the host.
#[derive(Debug, PartialEq, Eq)]
pub struct ServerIdentity {
    pub cert_der: Vec<u8>,
    pub cert_pem: String,
    pub cert_signature: Vec<u8>,
    pub key_der: Vec<u8>,
    pub key_pem: String,
}

/// The certificate and the private key of the host, as plain values.
pub struct IdentityModel {
    pub cert_der: Seq<u8>,
    pub cert_pem: Seq<char>,
    pub cert_signature: Seq<u8>,
    pub key_der: Seq<u8>,
    pub key_pem: Seq<char>,
}

impl View for ServerIdentity {
    type V = IdentityModel;

    open spec fn view(&self) -> IdentityModel {
        IdentityModel {
            cert_der: self.cert_der@,
            cert_pem: self.cert_pem@,
            cert_signature: self.cert_signature@,
            key_der: self.key_der@,
            key_pem: self.key_pem@,
        }
    }
}

/// The identity that was read from its parts; the first part that could not be
/// read tells why there is none.
pub open spec fn identity_of_parts(
    cert_pem: Seq<char>,
    key_pem: Seq<char>,
    cert_der: Option<Seq<u8>>,
    key_der: Option<Seq<u8>>,
    signature: Option<Seq<u8>>,
) -> Result<IdentityModel, IdentityError> {
    match (cert_der, key_der, signature) {
        (None, _, _) => Err(IdentityError::CertificatePem),
        (Some(_), None, _) => Err(IdentityError::PrivateKey),
        (Some(_), Some(_), None) => Err(IdentityError::Certificate),
        (Some(cert), Some(key), Some(sig)) => Ok(
            IdentityModel {
                cert_der: cert,
                cert_pem,
                cert_signature: sig,
                key_der: key,
                key_pem,
            },
        ),
    }
}

/// The identity that a certificate and a key in PEM form make.
pub open spec fn kept_identity(cert_pem: Seq<char>, key_pem: Seq<char>) -> Result<
    IdentityModel,
    IdentityError,
> {
    let cert_der = match pem_document(cert_pem) {
        Some((_, der)) => Some(der),
        None => None,
    };
    identity_of_parts(
        cert_pem,
        key_pem,
        cert_der,
        private_key(key_pem),
        match cert_der {
            Some(der) => certificate_signature(der),
            None => None,
        },
    )
}

/// The names that the host's certificate is for.
pub open spec fn certificate_names(host_name: Seq<char>) -> Seq<Seq<char>> {
    seq![host_name, "localhost"@, "127.0.0.1"@]
}

/// The identity, or the failure, is the one for a host with the given name and the
/// given key. The certificate is the one that the key signs for the host's names;
/// there is no identity where the key signs none, or where the signature of the
/// certificate cannot be read.
pub open spec fn is_identity_for_key(
    identity: Result<ServerIdentity, IdentityError>,
    host_name: Seq<char>,
    key_der: Seq<u8>,
    key_pem: Seq<char>,
) -> bool {
    match self_signed_der(key_pem, certificate_names(host_name), host_name) {
        None => identity matches Err(e) && e is SelfSigning,
        Some(der) => match certificate_signature(der) {
            None => identity matches Err(e) && e is Certificate,
            Some(signature) => {
                &&& identity matches Ok(i)
                &&& i@.cert_der == der
                &&& i@.cert_signature == signature
                &&& i@.key_der == key_der
                &&& i@.key_pem == key_pem
                &&& pem_document(i@.cert_pem) matches Some((_, read)) && read == der
            },
        },
    }
}

impl ServerIdentity {
    /// Puts an identity together from what was read of its parts.
    pub fn from_parts(
        cert_pem: String,
        key_pem: String,
        cert_der: Option<Vec<u8>>,
        key_der: Option<Vec<u8>>,
        signature: Option<Vec<u8>>,
    ) -> (identity: Result<Self, IdentityError>)
        ensures
            ({
                let model = identity_of_parts(
                    cert_pem@,
                    key_pem@,
                    optional_bytes(cert_der),
                    optional_bytes(key_der),
                    optional_bytes(signature),
                );
                match identity {
                    Ok(i) => model == Ok::<_, IdentityError>(i@),
                    Err(e) => model == Err::<IdentityModel, _>(e),
                }
            }),
    {
        match cert_der {
            None => Err(IdentityError::CertificatePem),
            Some(cert_der) => match key_der {
                None => Err(IdentityError::PrivateKey),
                Some(key_der) => match signature {
                    None => Err(IdentityError::Certificate),
                    Some(cert_signature) => Ok(
                        ServerIdentity { cert_der, cert_pem, cert_signature, key_der, key_pem },
                    ),
                },
            },
        }
    }

    /// Reads an identity that was kept in PEM form.
    pub fn from_pem(cert_pem: String, key_pem: &str) -> (identity: Result<Self, IdentityError>)
        ensures
            match identity {
                Ok(i) => kept_identity(cert_pem@, key_pem@) == Ok::<_, IdentityError>(i@),
                Err(e) => kept_identity(cert_pem@, key_pem@) == Err::<IdentityModel, _>(e),
            },
    {
        let cert_der = match pem_parse(cert_pem.as_str()) {
            Some((_, der)) => Some(der),
            None => None,
        };
        let key_der = read_private_key(key_pem);
        let signature = match &cert_der {
            Some(der) => read_certificate_signature(der.as_slice()),
            None => None,
        };
        Self::from_parts(cert_pem, key_pem.to_owned(), cert_der, key_der, signature)
    }

    /// The identity of a host with the given key, which comes in DER and PEM form.
    pub fn for_key(config: &SunriseConfig, key_der: Vec<u8>, key_pem: String) -> (identity: Result<
        Self,
        IdentityError,
    >)
        ensures
            is_identity_for_key(identity, config.host_name@, key_der@, key_pem@),
    {
        let names: Vec<String> = vec![
            config.host_name.clone(),
            "localhost".to_owned(),
            "127.0.0.1".to_owned(),
        ];
        assert(texts(names@) =~= certificate_names(config.host_name@));
        match self_signed_certificate(key_pem.as_str(), names, config.host_name.as_str()) {
            None => Err(IdentityError::SelfSigning),
            Some((cert_der, cert_pem)) => {
                let signature = read_certificate_signature(cert_der.as_slice());
                Self::from_parts(cert_pem, key_pem, Some(cert_der), Some(key_der), signature)
            },
        }
    }

    /// Makes a fresh identity for a host: the one for a random key, unless no key
    /// could be made. So signing fails only where that key signs no certificate for
    /// the host, and reading it only where its signature cannot be read. Kept in PEM
    /// form, the identity is read back.
    pub fn generate(config: &SunriseConfig) -> (identity: Result<Self, IdentityError>)
        ensures
            identity matches Err(e) && e is KeyGeneration || exists|
                key_der: Seq<u8>,
                key_pem: Seq<char>,
            |
                {
                    &&& private_key(key_pem) == Some(key_der)
                    &&& #[trigger] is_identity_for_key(
                        identity,
                        config.host_name@,
                        key_der,
                        key_pem,
                    )
                },
            identity matches Ok(i) ==> kept_identity(i@.cert_pem, i@.key_pem) == Ok::<
                _,
                IdentityError,
            >(i@),
    {
        match generate_rsa_key() {
            None => Err(IdentityError::KeyGeneration),
            Some((key_der, key_pem)) => Self::for_key(config, key_der, key_pem),
        }
    }

    /// The identity of the host: the one that its settings keep, or a fresh one,
    /// which the settings keep from then on. The second part tells whether it is
    /// fresh.
    pub fn load_or_generate(config: &mut SunriseConfig) -> (identity: Result<
        (Self, bool),
        IdentityError,
    >)
        ensures
            match (
                optional_text(old(config).server_cert_pem),
                optional_text(old(config).server_private_key_pem),
            ) {
                (Some(cert_pem), Some(key_pem)) => {
                    &&& *final(config) == *old(config)
                    &&& match identity {
                        Ok((i, created)) => !created && kept_identity(cert_pem, key_pem) == Ok::<
                            _,
                            IdentityError,
                        >(i@),
                        Err(e) => kept_identity(cert_pem, key_pem) == Err::<IdentityModel, _>(e),
                    }
                },
                _ => match identity {
                    Ok((i, created)) => {
                        &&& created
                        &&& optional_text(final(config).server_cert_pem) == Some(i@.cert_pem)
                        &&& optional_text(final(config).server_private_key_pem) == Some(i@.key_pem)
                        &&& *final(config) == (SunriseConfig {
                            server_cert_pem: final(config).server_cert_pem,
                            server_private_key_pem: final(config).server_private_key_pem,
                            ..*old(config)
                        })
                        &&& kept_identity(i@.cert_pem, i@.key_pem) == Ok::<_, IdentityError>(i@)
                        &&& exists|key_der: Seq<u8>, key_pem: Seq<char>|
                            {
                                &&& private_key(key_pem) == Some(key_der)
                                &&& #[trigger] is_identity_for_key(
                                    Ok(i),
                                    old(config).host_name@,
                                    key_der,
                                    key_pem,
                                )
                            }
                    },
                    Err(e) => {
                        &&& *final(config) == *old(config)
                        &&& e is KeyGeneration || exists|key_der: Seq<u8>, key_pem: Seq<char>|
                            {
                                &&& private_key(key_pem) == Some(key_der)
                                &&& #[trigger] is_identity_for_key(
                                    Err(e),
                                    old(config).host_name@,
                                    key_der,
                                    key_pem,
                                )
                            }
                    },
                },
            },
    {
        let kept = match (&config.server_cert_pem, &config.server_private_key_pem) {
            (Some(cert_pem), Some(key_pem)) => Some((cert_pem.clone(), key_pem.clone())),
            _ => None,
        };
        match kept {
            Some((cert_pem, key_pem)) => match Self::from_pem(cert_pem, key_pem.as_str()) {
                Ok(identity) => Ok((identity, false)),
                Err(e) => Err(e),
            },
            None => match Self::generate(config) {
                Ok(identity) => {
                    config.server_cert_pem = Some(identity.cert_pem.clone());
                    config.server_private_key_pem = Some(identity.key_pem.clone());
                    Ok((identity, true))
                },
                Err(e) => Err(e),
            },
        }
    }

    /// The certificate in PEM form.
    pub fn cert_pem(&self) -> (text: &str)
        ensures
            text@ == self@.cert_pem,
    {
        self.cert_pem.as_str()
    }

    /// The signature of the certificate.
    pub fn cert_signature(&self) -> (bytes: &[u8])
        ensures
            bytes@ == self@.cert_signature,
    {
        self.cert_signature.as_slice()
    }

    /// Signs the secret of a pairing session. The signature of an RSA key, such as
    /// every generated identity has, is determined by the key and the secret; that
    /// of a kept key of another kind is what the outside signer gives.
    pub fn sign_pairing_secret(&self, server_secret: &[u8]) -> (signature: Result<
        Vec<u8>,
        IdentityError,
    >)
        ensures
            rsa_signature(self@.key_pem, server_secret@) matches Some(bytes) ==> {
                signature matches Ok(s) && s@ == bytes
            },
            signature matches Err(e) ==> e is Signing,
    {
        match rsa_sign(self.key_pem.as_str(), server_secret) {
            Some(bytes) => Ok(bytes),
            None => match sign_message(self.key_der.as_slice(), server_secret) {
                Some(bytes) => Ok(bytes),
                None => Err(IdentityError::Signing),
            },
        }
    }

    /// What a TLS server of the host shows and proves itself with.
    pub fn tls_material(&self) -> (material: TlsMaterial)
        ensures
            material.cert_der@ == self@.cert_der,
            material.key_der@ == self@.key_der,
    {
        TlsMaterial {
            cert_der: copy_bytes(self.cert_der.as_slice()),
            key_der: copy_bytes(self.key_der.as_slice()),
        }
    }

    /// The settings of a TLS server that shows the certificate. The only failure is
    /// that there are none for this certificate and key.
    pub fn tls_config(&self) -> (config: Result<rustls::ServerConfig, IdentityError>)
        ensures
            config matches Err(e) ==> e is TlsConfig,
    {
        match tls_server_config(self.tls_material()) {
            Some(config) => Ok(config),
            None => Err(IdentityError::TlsConfig),
        }
    }
}

/// The certificate of a host is the one that its key signs for the host's name, for
/// `localhost` and for `127.0.0.1`, in the host's name; the identity keeps the key.
pub proof fn certificates_are_for_the_host(
    config: &SunriseConfig,
    key_der: Vec<u8>,
    key_pem: String,
    identity: Result<ServerIdentity, IdentityError>,
)
    requires
        call_ensures(ServerIdentity::for_key, (config, key_der, key_pem), identity),
    ensures
        ({
            let made = self_signed_der(
                key_pem@,
                seq![config.host_name@, "localhost"@, "127.0.0.1"@],
                config.host_name@,
            );
            &&& made is None <==> identity == Err::<ServerIdentity, _>(IdentityError::SelfSigning)
            &&& identity matches Ok(i) ==> {
                &&& made == Some(i.cert_der@)
                &&& certificate_signature(i.cert_der@) == Some(i.cert_signature@)
                &&& i.key_der@ == key_der@
                &&& i.key_pem@ == key_pem@
                &&& (pem_document(i.cert_pem@) matches Some((_, der)) && der == i.cert_der@)
            }
        }),
{
}

/// An identity that was kept is read back: the certificate and the key from their PEM
/// texts, which stay as they are, and the signature from the certificate. The first part
/// that cannot be read is told.
pub proof fn kept_identities_are_read_back(
    cert_pem: String,
    key_pem: &str,
    identity: Result<ServerIdentity, IdentityError>,
)
    requires
        call_ensures(ServerIdentity::from_pem, (cert_pem, key_pem), identity),
    ensures
        pem_document(cert_pem@) is None ==> identity == Err::<ServerIdentity, _>(
            IdentityError::CertificatePem,
        ),
        pem_document(cert_pem@) is Some && private_key(key_pem@) is None ==> identity == Err::<
            ServerIdentity,
            _,
        >(IdentityError::PrivateKey),
        identity matches Ok(i) ==> {
            &&& i.cert_pem@ == cert_pem@
            &&& i.key_pem@ == key_pem@
            &&& (pem_document(cert_pem@) matches Some((_, der)) && der == i.cert_der@)
            &&& private_key(key_pem@) == Some(i.key_der@)
            &&& certificate_signature(i.cert_der@) == Some(i.cert_signature@)
        },
        (pem_document(cert_pem@) matches Some((_, der)) && certificate_signature(der) is Some)
            && private_key(key_pem@) is Some ==> identity is Ok,
{
}

/// What clients are shown is the identity's own certificate and its signature, and a TLS
/// server gets the certificate as its certificate and the key as its key.
pub proof fn identities_show_their_certificate(
    identity: &ServerIdentity,
    pem: &str,
    signature: &[u8],
    material: TlsMaterial,
)
    requires
        call_ensures(ServerIdentity::cert_pem, (identity,), pem),
        call_ensures(ServerIdentity::cert_signature, (identity,), signature),
        call_ensures(ServerIdentity::tls_material, (identity,), material),
    ensures
        pem@ == identity.cert_pem@,
        signature@ == identity.cert_signature@,
        material.cert_der@ == identity.cert_der@,
        material.key_der@ == identity.key_der@,
{
}

/// An identity that the settings keep is used as it is; a fresh one is kept in the
/// settings, in PEM form, and nothing else in them changes.
pub proof fn identities_are_made_once(
    config: &mut SunriseConfig,
    identity: Result<(ServerIdentity, bool), IdentityError>,
)
    requires
        call_ensures(ServerIdentity::load_or_generate, (config,), identity),
    ensures
        old(config).server_cert_pem is Some && old(config).server_private_key_pem is Some ==> {
            &&& *final(config) == *old(config)
            &&& identity matches Ok((i, created)) ==> !created && i.cert_pem@ == old(config).server_cert_pem->0@ && i.key_pem@ == old(config).server_private_key_pem->0@
        },
        old(config).server_cert_pem is None || old(config).server_private_key_pem is None ==> {
            &&& identity matches Ok((i, created)) ==> {
                &&& created
                &&& final(config).server_cert_pem is Some && final(config).server_cert_pem->0@
                    == i.cert_pem@
                &&& final(config).server_private_key_pem is Some && final(config).server_private_key_pem->0@ == i.key_pem@
            }
            &&& identity is Err ==> *final(config) == *old(config)
        },
        final(config).host_name == old(config).host_name,
        final(config).paired_clients == old(config).paired_clients,
        final(config).http_port == old(config).http_port,
        final(config).https_port == old(config).https_port,
        final(config).rtsp_port == old(config).rtsp_port,
{
}

} // verus!
