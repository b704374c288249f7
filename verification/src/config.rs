//! The validated configuration the service starts from: a bind
//! address, one SSH authentication method, and the monitored servers.
//! Reading and deserializing the file on disk happens outside the
//! library; it hands over plain values.

use vstd::prelude::*;

verus! {

use crate::lit_bytes;
use crate::text::dec_digits;

/// Key-file authentication: a private key path, an optional public
/// key hint, and an optional passphrase.
pub struct PubKeyConfig {
    pub public_key: Option<Vec<u8>>,
    pub private_key: Vec<u8>,
    pub passphrase: Option<Vec<u8>>,
}

impl PubKeyConfig {
    pub fn public_key_path(&self) -> (r: Option<&Vec<u8>>)
        ensures
            match r {
                Some(p) => self.public_key is Some && p@ == self.public_key->0@,
                None => self.public_key is None,
            },
    {
        match &self.public_key {
            Some(p) => Some(p),
            None => None,
        }
    }

    pub fn private_key_path(&self) -> (r: &Vec<u8>)
        ensures
            r@ == self.private_key@,
    {
        &self.private_key
    }

    pub fn passphrase(&self) -> (r: Option<&Vec<u8>>)
        ensures
            match r {
                Some(p) => self.passphrase is Some && p@ == self.passphrase->0@,
                None => self.passphrase is None,
            },
    {
        match &self.passphrase {
            Some(p) => Some(p),
            None => None,
        }
    }
}

/// How the probes authenticate: the local SSH agent, or a key file.
pub enum AuthMethod {
    SshAgent,
    PubKey(PubKeyConfig),
}

impl Default for AuthMethod {
    /// The agent, when the configuration names no method.
    fn default() -> (r: AuthMethod)
        ensures
            r is SshAgent,
    {
        AuthMethod::SshAgent
    }
}

/// One monitored server: where to connect and which device, filesystem
/// and interface to watch.
pub struct ServerConfig {
    pub hostname: Vec<u8>,
    pub username: Vec<u8>,
    pub disk: Vec<u8>,
    pub filesystem: Vec<u8>,
    pub network_interface: Vec<u8>,
}

/// The whole configuration.
pub struct Config {
    pub ip: Vec<u8>,
    pub port: u32,
    pub authentication: AuthMethod,
    pub servers: Option<Vec<ServerConfig>>,
}

impl Config {
    /// The bind address `ip:port`.
    pub fn address(&self) -> (r: Vec<u8>)
        ensures
            r@ == self.ip@ + lit_bytes(":"@) + dec_digits(self.port as int),
    {
        proof {
            reveal_strlit(":");
        }
        let mut r: Vec<u8> = Vec::new();
        crate::network::append_bytes(&mut r, self.ip.as_slice());
        let colon = crate::ascii_to_bytes(":");
        crate::network::append_bytes(&mut r, colon.as_slice());
        let digits = crate::text::render_u64(self.port as u64);
        crate::network::append_bytes(&mut r, digits.as_slice());
        r
    }
}

} // verus!
