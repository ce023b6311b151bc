//! The listener's TLS material: which private key and which certificates
//! are taken from PEM text.
//!
//! Reading PEM is left to `rustls_pemfile`; what is decided here is which of
//! the items it finds are used, and which failure is reported when none can
//! be.

use vstd::prelude::*;

verus! {

/// Why PEM text gave no usable key and certificate chain.
#[derive(Clone, Copy, Debug, PartialEq, Eq, Structural)]
pub enum CredentialError {
    /// The key text is not well-formed PEM.
    UnreadableKey,
    /// The key text holds neither a PKCS#8 nor an RSA private key.
    NoPrivateKey,
    /// The certificate text is not well-formed PEM.
    UnreadableCertificate,
}

/// A private key and the certificate chain that goes with it, each in DER.
#[derive(Debug, PartialEq, Eq)]
pub struct Credentials {
    /// The private key.
    pub key: Vec<u8>,
    /// The certificates, in the order of the text they came from.
    pub cert_chain: Vec<Vec<u8>>,
}

/// The PKCS#8 private keys that `rustls_pemfile` finds in `pem`, in DER and
/// in order; `None` where it rejects the text.
pub uninterp spec fn pkcs8_keys_in(pem: Seq<u8>) -> Option<Seq<Seq<u8>>>;

/// The RSA private keys that `rustls_pemfile` finds in `pem`, in DER and in
/// order; `None` where it rejects the text.
pub uninterp spec fn rsa_keys_in(pem: Seq<u8>) -> Option<Seq<Seq<u8>>>;

/// The certificates that `rustls_pemfile` finds in `pem`, in DER and in
/// order; `None` where it rejects the text.
pub uninterp spec fn certificates_in(pem: Seq<u8>) -> Option<Seq<Seq<u8>>>;

/// A list of DER items, or its absence, as sequences of bytes.
pub open spec fn der_items(found: Option<Vec<Vec<u8>>>) -> Option<Seq<Seq<u8>>> {
    match found {
        Some(items) => Some(items.deep_view()),
        None => None,
    }
}

/// The outcome of a selection as sequences of bytes: the key and the chain.
pub open spec fn outcome(result: Result<Credentials, CredentialError>) -> Result<
    (Seq<u8>, Seq<Seq<u8>>),
    CredentialError,
> {
    match result {
        Ok(credentials) => Ok((credentials.key@, credentials.cert_chain.deep_view())),
        Err(error) => Err(error),
    }
}

/// The key that is used: the first PKCS#8 key, or the first RSA key where
/// there is no PKCS#8 key.
pub open spec fn selected_key(pkcs8: Option<Seq<Seq<u8>>>, rsa: Option<Seq<Seq<u8>>>) -> Result<
    Seq<u8>,
    CredentialError,
> {
    match pkcs8 {
        None => Err(CredentialError::UnreadableKey),
        Some(keys) => if keys.len() > 0 {
            Ok(keys[0])
        } else {
            match rsa {
                None => Err(CredentialError::UnreadableKey),
                Some(keys) => if keys.len() > 0 {
                    Ok(keys[0])
                } else {
                    Err(CredentialError::NoPrivateKey)
                },
            }
        },
    }
}

/// The credentials that are used: the selected key with every certificate.
/// A failure to find a key is reported before one to read the certificates.
pub open spec fn selected(
    pkcs8: Option<Seq<Seq<u8>>>,
    rsa: Option<Seq<Seq<u8>>>,
    certificates: Option<Seq<Seq<u8>>>,
) -> Result<(Seq<u8>, Seq<Seq<u8>>), CredentialError> {
    match selected_key(pkcs8, rsa) {
        Err(error) => Err(error),
        Ok(key) => match certificates {
            None => Err(CredentialError::UnreadableCertificate),
            Some(chain) => Ok((key, chain)),
        },
    }
}

/// Calls `rustls_pemfile::pkcs8_private_keys` on `pem`. The result is what
/// that function reads from these bytes and nothing else: its keys in order,
/// or `None` where it returns an error.
#[verifier::external_body]
fn pkcs8_keys(pem: &[u8]) -> (keys: Option<Vec<Vec<u8>>>)
    ensures
        der_items(keys) == pkcs8_keys_in(pem@),
{
    let mut reader: &[u8] = pem;
    rustls_pemfile::pkcs8_private_keys(&mut reader).ok()
}

/// Calls `rustls_pemfile::rsa_private_keys` on `pem`. The result is what
/// that function reads from these bytes and nothing else: its keys in order,
/// or `None` where it returns an error.
#[verifier::external_body]
fn rsa_keys(pem: &[u8]) -> (keys: Option<Vec<Vec<u8>>>)
    ensures
        der_items(keys) == rsa_keys_in(pem@),
{
    let mut reader: &[u8] = pem;
    rustls_pemfile::rsa_private_keys(&mut reader).ok()
}

/// Calls `rustls_pemfile::certs` on `pem`. The result is what that function
/// reads from these bytes and nothing else: its certificates in order, or
/// `None` where it returns an error.
#[verifier::external_body]
fn certificates(pem: &[u8]) -> (certificates: Option<Vec<Vec<u8>>>)
    ensures
        der_items(certificates) == certificates_in(pem@),
{
    let mut reader: &[u8] = pem;
    rustls_pemfile::certs(&mut reader).ok()
}

fn first_key(keys: Vec<Vec<u8>>) -> (key: Option<Vec<u8>>)
    ensures
        match key {
            Some(key) => keys.len() > 0 && key@ == keys.deep_view()[0],
            None => keys.len() == 0,
        },
{
    let mut keys = keys;
    if keys.len() == 0 {
        None
    } else {
        Some(keys.remove(0))
    }
}

/// Selects the credentials from what was read: `pkcs8` and `rsa` from the
/// key text, `certificates` from the certificate text, each `None` where the
/// text could not be read.
pub fn select_credentials(
    pkcs8: Option<Vec<Vec<u8>>>,
    rsa: Option<Vec<Vec<u8>>>,
    certificates: Option<Vec<Vec<u8>>>,
) -> (result: Result<Credentials, CredentialError>)
    ensures
        outcome(result) == selected(der_items(pkcs8), der_items(rsa), der_items(certificates)),
{
    let key = match pkcs8 {
        None => {
            return Err(CredentialError::UnreadableKey);
        },
        Some(keys) => match first_key(keys) {
            Some(key) => key,
            None => match rsa {
                None => {
                    return Err(CredentialError::UnreadableKey);
                },
                Some(keys) => match first_key(keys) {
                    Some(key) => key,
                    None => {
                        return Err(CredentialError::NoPrivateKey);
                    },
                },
            },
        },
    };
    match certificates {
        None => Err(CredentialError::UnreadableCertificate),
        Some(cert_chain) => Ok(Credentials { key, cert_chain }),
    }
}

/// Reads a private key from `key_pem` and a certificate chain from
/// `cert_pem`, both PEM text, and selects the credentials from them.
pub fn load_credentials(key_pem: &[u8], cert_pem: &[u8]) -> (result: Result<
    Credentials,
    CredentialError,
>)
    ensures
        outcome(result) == selected(
            pkcs8_keys_in(key_pem@),
            rsa_keys_in(key_pem@),
            certificates_in(cert_pem@),
        ),
{
    select_credentials(pkcs8_keys(key_pem), rsa_keys(key_pem), certificates(cert_pem))
}

/// Why no TLS configuration could be made.
#[derive(Clone, Copy, Debug, PartialEq, Eq, Structural)]
pub enum ConfigError {
    /// The PEM text gave no credentials.
    Credentials(CredentialError),
    /// No self-signed certificate could be generated.
    Generation,
    /// The key or the certificate chain was refused.
    Rejected,
}

/// The TLS configuration of a server, as `rustls` holds it.
#[verifier::external_type_specification]
#[verifier::external_body]
pub struct ExServerConfig(rustls::ServerConfig);

/// Calls `rcgen::generate_simple_self_signed` for `names` and takes the
/// certificate and the key pair in DER. The key is freshly drawn, so nothing
/// is said of the bytes; the chain is the one certificate that was issued.
/// `None` where generation fails.
#[verifier::external_body]
fn self_signed(names: Vec<String>) -> (generated: Option<Credentials>)
    ensures
        generated matches Some(credentials) ==> credentials.cert_chain.len() == 1,
{
    match rcgen::generate_simple_self_signed(names) {
        Ok(certified) => Some(
            Credentials {
                key: certified.key_pair.serialize_der(),
                cert_chain: vec![certified.cert.der().to_vec()],
            },
        ),
        Err(_) => None,
    }
}

/// Builds a `rustls::ServerConfig` with safe defaults and no client
/// authentication, and hands `cert_chain` and `key` to its
/// `with_single_cert`. Whether they are accepted is for `rustls` to say:
/// `None` where it refuses them.
#[verifier::external_body]
fn server_config(cert_chain: Vec<Vec<u8>>, key: Vec<u8>) -> (config: Option<rustls::ServerConfig>) {
    let chain = cert_chain.into_iter().map(rustls::Certificate).collect();
    rustls::ServerConfig::builder()
        .with_safe_defaults()
        .with_no_client_auth()
        .with_single_cert(chain, rustls::PrivateKey(key))
        .ok()
}

/// The names a certificate for local development is issued for: the loopback
/// address and `localhost`.
pub fn development_names() -> (names: Vec<String>)
    ensures
        names.len() == 2,
        names[0]@ == "127.0.0.1"@,
        names[1]@ == "localhost"@,
{
    let mut names: Vec<String> = Vec::new();
    names.push("127.0.0.1".to_owned());
    names.push("localhost".to_owned());
    names
}

/// Self-signed credentials for local development, freshly generated for
/// `development_names`: a key and the one certificate issued for it.
pub fn development_credentials() -> (result: Result<Credentials, ConfigError>)
    ensures
        match result {
            Ok(credentials) => credentials.cert_chain.len() == 1,
            Err(error) => error == ConfigError::Generation,
        },
{
    match self_signed(development_names()) {
        Some(credentials) => Ok(credentials),
        None => Err(ConfigError::Generation),
    }
}

/// What becomes of an attempt to build a configuration: the configuration
/// where there is one, `Rejected` where there is none.
pub fn accepted(built: Option<rustls::ServerConfig>) -> (result: Result<
    rustls::ServerConfig,
    ConfigError,
>)
    ensures
        match built {
            Some(config) => result == Ok::<rustls::ServerConfig, ConfigError>(config),
            None => result == Err::<rustls::ServerConfig, ConfigError>(ConfigError::Rejected),
        },
{
    match built {
        Some(config) => Ok(config),
        None => Err(ConfigError::Rejected),
    }
}

/// The TLS configuration for `credentials`, or `Rejected` where the key or
/// the chain is refused.
pub fn config_for(credentials: Credentials) -> (result: Result<rustls::ServerConfig, ConfigError>)
    ensures
        result is Ok || result == Err::<rustls::ServerConfig, ConfigError>(ConfigError::Rejected),
{
    accepted(server_config(credentials.cert_chain, credentials.key))
}

/// The TLS configuration for the key in `key_pem` and the certificates in
/// `cert_pem`. Where the text gives no credentials, the error says why;
/// where it gives them, the configuration is built from them or they are
/// rejected.
pub fn signaling_config(key_pem: &[u8], cert_pem: &[u8]) -> (result: Result<
    rustls::ServerConfig,
    ConfigError,
>)
    ensures
        match selected(pkcs8_keys_in(key_pem@), rsa_keys_in(key_pem@), certificates_in(cert_pem@)) {
            Err(error) => result == Err::<rustls::ServerConfig, ConfigError>(
                ConfigError::Credentials(error),
            ),
            Ok(_) => result is Ok || result == Err::<rustls::ServerConfig, ConfigError>(
                ConfigError::Rejected,
            ),
        },
{
    match load_credentials(key_pem, cert_pem) {
        Ok(credentials) => config_for(credentials),
        Err(error) => Err(ConfigError::Credentials(error)),
    }
}

/// A TLS configuration for local development, with a freshly generated
/// self-signed certificate.
pub fn development_config() -> (result: Result<rustls::ServerConfig, ConfigError>)
    ensures
        result matches Err(error) ==> error == ConfigError::Generation || error
            == ConfigError::Rejected,
{
    match development_credentials() {
        Ok(credentials) => config_for(credentials),
        Err(error) => Err(error),
    }
}

} // verus!
