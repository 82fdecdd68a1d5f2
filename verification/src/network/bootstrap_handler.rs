//! The configuration that peers share to find each other, and the edits
//! that a node makes to it.

use vstd::prelude::*;
use vstd::string::StringExecFns;

verus! {

/// A socket address: an IPv4 or IPv6 address with a port.
#[derive(Clone, Copy, Debug, PartialEq, Eq)]
pub enum SocketAddr {
    V4 { ip: [u8; 4], port: u16 },
    V6 { ip: [u16; 8], port: u16, flowinfo: u32, scope_id: u32 },
}

/// Where a peer can be reached without any prior exchange.
#[derive(Clone, Debug, PartialEq, Eq)]
pub struct StaticContactInfo {
    /// The addresses on which the peer accepts TCP connections.
    pub tcp_acceptors: Vec<SocketAddr>,
    /// The TCP servers that tell the peer its external address.
    pub tcp_mapper_servers: Vec<SocketAddr>,
}

/// The contents of a `StaticContactInfo`.
pub struct ContactView {
    pub tcp_acceptors: Seq<SocketAddr>,
    pub tcp_mapper_servers: Seq<SocketAddr>,
}

impl View for StaticContactInfo {
    type V = ContactView;

    open spec fn view(&self) -> ContactView {
        ContactView { tcp_acceptors: self.tcp_acceptors@, tcp_mapper_servers: self.tcp_mapper_servers@ }
    }
}

/// The configuration of the connection service, as peers share it.
#[derive(Clone, Debug, PartialEq, Eq)]
pub struct Config {
    pub hard_coded_contacts: Vec<StaticContactInfo>,
    pub enable_tcp: bool,
    pub enable_utp: bool,
    pub tcp_acceptor_port: Option<u16>,
    pub utp_acceptor_port: Option<u16>,
    pub udp_mapper_servers: Vec<SocketAddr>,
    pub tcp_mapper_servers: Vec<SocketAddr>,
    pub service_discovery_port: Option<u16>,
    pub bootstrap_cache_name: Option<String>,
}

/// The contents of a `Config`.
pub struct ConfigView {
    pub hard_coded_contacts: Seq<ContactView>,
    pub enable_tcp: bool,
    pub enable_utp: bool,
    pub tcp_acceptor_port: Option<u16>,
    pub utp_acceptor_port: Option<u16>,
    pub udp_mapper_servers: Seq<SocketAddr>,
    pub tcp_mapper_servers: Seq<SocketAddr>,
    pub service_discovery_port: Option<u16>,
    pub bootstrap_cache_name: Option<String>,
}

impl View for Config {
    type V = ConfigView;

    open spec fn view(&self) -> ConfigView {
        ConfigView {
            hard_coded_contacts: self.hard_coded_contacts@.map_values(|c: StaticContactInfo| c@),
            enable_tcp: self.enable_tcp,
            enable_utp: self.enable_utp,
            tcp_acceptor_port: self.tcp_acceptor_port,
            utp_acceptor_port: self.utp_acceptor_port,
            udp_mapper_servers: self.udp_mapper_servers@,
            tcp_mapper_servers: self.tcp_mapper_servers@,
            service_discovery_port: self.service_discovery_port,
            bootstrap_cache_name: self.bootstrap_cache_name,
        }
    }
}

/// The default configuration: no contacts, TCP and uTP enabled, no fixed
/// ports, no mapper servers, no bootstrap cache.
pub open spec fn default_config() -> ConfigView {
    ConfigView {
        hard_coded_contacts: Seq::empty(),
        enable_tcp: true,
        enable_utp: true,
        tcp_acceptor_port: None,
        utp_acceptor_port: None,
        udp_mapper_servers: Seq::empty(),
        tcp_mapper_servers: Seq::empty(),
        service_discovery_port: None,
        bootstrap_cache_name: None,
    }
}

impl Default for Config {
    fn default() -> (r: Config)
        ensures
            r@ == default_config(),
    {
        let r = Config {
            hard_coded_contacts: Vec::new(),
            enable_tcp: true,
            enable_utp: true,
            tcp_acceptor_port: None,
            utp_acceptor_port: None,
            udp_mapper_servers: Vec::new(),
            tcp_mapper_servers: Vec::new(),
            service_discovery_port: None,
            bootstrap_cache_name: None,
        };
        assert(r@.hard_coded_contacts =~= Seq::<ContactView>::empty());
        r
    }
}

/// The configuration after `addr` is put first among the TCP acceptors of
/// the first contact.
pub open spec fn with_first_acceptor(c: ConfigView, addr: SocketAddr) -> ConfigView {
    let first = c.hard_coded_contacts[0];
    ConfigView {
        hard_coded_contacts: c.hard_coded_contacts.update(
            0,
            ContactView { tcp_acceptors: first.tcp_acceptors.insert(0, addr), ..first },
        ),
        ..c
    }
}

/// Putting `addr` first among the acceptors of the first contact keeps every
/// acceptor it had, in order, after `addr`; the other contacts and every
/// other setting stay as they are.
pub proof fn lemma_first_acceptor_kept(c: ConfigView, addr: SocketAddr)
    requires
        c.hard_coded_contacts.len() > 0,
    ensures
        with_first_acceptor(c, addr).hard_coded_contacts.len() == c.hard_coded_contacts.len(),
        with_first_acceptor(c, addr).hard_coded_contacts[0].tcp_acceptors == seq![addr]
            + c.hard_coded_contacts[0].tcp_acceptors,
        with_first_acceptor(c, addr).hard_coded_contacts[0].tcp_mapper_servers
            == c.hard_coded_contacts[0].tcp_mapper_servers,
        forall|i: int|
            0 < i < c.hard_coded_contacts.len() ==> #[trigger] with_first_acceptor(
                c,
                addr,
            ).hard_coded_contacts[i] == c.hard_coded_contacts[i],
        with_first_acceptor(c, addr).enable_tcp == c.enable_tcp,
        with_first_acceptor(c, addr).enable_utp == c.enable_utp,
        with_first_acceptor(c, addr).tcp_acceptor_port == c.tcp_acceptor_port,
        with_first_acceptor(c, addr).utp_acceptor_port == c.utp_acceptor_port,
        with_first_acceptor(c, addr).udp_mapper_servers == c.udp_mapper_servers,
        with_first_acceptor(c, addr).tcp_mapper_servers == c.tcp_mapper_servers,
        with_first_acceptor(c, addr).service_discovery_port == c.service_discovery_port,
        with_first_acceptor(c, addr).bootstrap_cache_name == c.bootstrap_cache_name,
{
    assert(with_first_acceptor(c, addr).hard_coded_contacts[0].tcp_acceptors =~= seq![addr]
        + c.hard_coded_contacts[0].tcp_acceptors);
}

/// Holds the configuration through which a node joins the network.
pub struct BootstrapHandler {
    pub config: Config,
}

impl BootstrapHandler {
    /// Puts the first TCP acceptor of `info` first among the TCP acceptors of
    /// the first contact of the configuration.
    pub fn update_config(&mut self, info: &StaticContactInfo)
        requires
            old(self).config.hard_coded_contacts.len() > 0,
            info.tcp_acceptors.len() > 0,
        ensures
            final(self).config@ == with_first_acceptor(old(self).config@, info.tcp_acceptors@[0]),
    {
        let mut first = self.config.hard_coded_contacts.remove(0);
        first.tcp_acceptors.insert(0, info.tcp_acceptors[0]);
        self.config.hard_coded_contacts.insert(0, first);
        assert(self.config@.hard_coded_contacts =~= with_first_acceptor(
            old(self).config@,
            info.tcp_acceptors@[0],
        ).hard_coded_contacts);
    }
}

/// The name of the connection service's configuration file for a program
/// whose executable is named `stem`.
pub fn config_file_name(stem: &str) -> (r: String)
    ensures
        r@ == stem@ + ".crust.config"@,
{
    let r = String::from_str(stem);
    r.concat(".crust.config")
}

/// Where `bootstrap_load` puts its copy of the configuration file.
pub fn bootstrap_config_path(file_name: &str) -> (r: String)
    ensures
        r@ == "target/debug/"@ + file_name@,
{
    let r = String::from_str("target/debug/");
    r.concat(file_name)
}

/// Where `update_config` writes the updated configuration file.
pub fn update_config_path(file_name: &str) -> (r: String)
    ensures
        r@ == "temp/"@ + file_name@,
{
    let r = String::from_str("temp/");
    r.concat(file_name)
}

} // verus!
