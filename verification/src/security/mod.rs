//! Certificates: issuing, revoking and renewing them.

pub mod ca;
pub mod laws;
pub mod mgmt_server;
pub mod revocation;
pub mod server_cert;
pub mod x509;

pub use ca::{CaError, CertificateAuthority, FileCertificateAuthority, IssuedCert};
pub use revocation::{RevocationWatch, RevokedSerials};
