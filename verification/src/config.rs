//! The settings that the server is started with.
use vstd::prelude::*;

verus! {

/// An IP address in text, and of which family it is.
#[derive(Debug)]
pub struct HostAddress {
    pub text: String,
    pub v6: bool,
}

/// Where the server listens.
#[derive(Debug)]
pub struct ListenAddress {
    pub host: HostAddress,
    /// Whether the address stands for every address of the machine.
    pub unspecified: bool,
    pub port: u16,
}

/// The settings that the server is started with.
#[derive(Debug)]
pub struct Config {
    pub listen: ListenAddress,
    /// The shared secret; an empty one asks for none.
    pub auth_token: String,
    /// The largest body that is forwarded, in bytes.
    pub max_body_bytes: usize,
    /// How long a silent device is kept, in seconds.
    pub device_ttl_secs: u64,
    /// How long a room lives, in seconds.
    pub room_ttl_secs: u64,
    /// How many requests may wait for one device.
    pub max_inflight: usize,
    /// How long a forwarded request waits for its answer, in seconds.
    pub request_timeout_secs: u64,
    /// Whether the server announces itself in the local network.
    pub enable_mdns: bool,
    /// The address to announce, where it is not to be found out.
    pub public_host: Option<HostAddress>,
    /// The network interface to announce, where it is not to be chosen.
    pub network_interface: Option<String>,
    /// Where keys and files are kept.
    pub data_dir: String,
    pub server_instance_id: String,
    pub server_device_name: String,
    pub server_user_name: String,
    /// Which log lines are written.
    pub log: String,
}

impl Config {
    /// How long a silent device is kept, in milliseconds.
    pub fn device_ttl(&self) -> (millis: u128)
        ensures
            millis == self.device_ttl_secs * 1000,
    {
        self.device_ttl_secs as u128 * 1000
    }

    /// How long a room lives, in milliseconds.
    pub fn room_ttl(&self) -> (millis: u128)
        ensures
            millis == self.room_ttl_secs * 1000,
    {
        self.room_ttl_secs as u128 * 1000
    }

    /// How long a forwarded request waits for its answer, in milliseconds.
    pub fn request_timeout(&self) -> (millis: u128)
        ensures
            millis == self.request_timeout_secs * 1000,
    {
        self.request_timeout_secs as u128 * 1000
    }

    /// Whether callers have to show the shared secret.
    pub fn auth_required(&self) -> (required: bool)
        ensures
            required == (self.auth_token@.len() > 0),
    {
        !self.auth_token.as_str().is_empty()
    }
}

} // verus!
