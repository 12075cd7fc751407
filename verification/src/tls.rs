//! Where the self-signed TLS certificate and its key are kept.  Making the
//! certificate and loading it into TLS configurations happens outside the
//! library.
use vstd::prelude::*;
use crate::paths::{join_path, joined};

verus! {

/// The locations of the certificate and the private key, in PEM.
pub struct TlsManager {
    pub cert_path: String,
    pub key_path: String,
}

impl TlsManager {
    /// Files under `certs` in the data directory `data_dir`: `cert.pem` and
    /// `key.pem`.
    pub fn new(data_dir: &str) -> (m: TlsManager)
        ensures
            m.cert_path@ == joined(joined(data_dir@, "certs"@), "cert.pem"@),
            m.key_path@ == joined(joined(data_dir@, "certs"@), "key.pem"@),
    {
        let cert_dir = join_path(data_dir, "certs");
        TlsManager {
            cert_path: join_path(cert_dir.as_str(), "cert.pem"),
            key_path: join_path(cert_dir.as_str(), "key.pem"),
        }
    }
}

} // verus!
