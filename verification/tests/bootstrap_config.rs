use p2p3::network::bootstrap_handler::{
    bootstrap_config_path, config_file_name, update_config_path, BootstrapHandler, Config,
    SocketAddr, StaticContactInfo,
};

fn v4(a: u8, port: u16) -> SocketAddr {
    SocketAddr::V4 { ip: [10, 0, 0, a], port }
}

#[test]
fn default_config() {
    let c = Config::default();
    assert!(c.hard_coded_contacts.is_empty());
    assert!(c.enable_tcp && c.enable_utp);
    assert_eq!(c.tcp_acceptor_port, None);
    assert_eq!(c.utp_acceptor_port, None);
    assert!(c.udp_mapper_servers.is_empty() && c.tcp_mapper_servers.is_empty());
    assert_eq!(c.service_discovery_port, None);
    assert_eq!(c.bootstrap_cache_name, None);
}

#[test]
fn update_config_puts_acceptor_first() {
    let mut config = Config::default();
    config.hard_coded_contacts.push(StaticContactInfo {
        tcp_acceptors: vec![v4(1, 5000)],
        tcp_mapper_servers: vec![v4(9, 9)],
    });
    config.hard_coded_contacts.push(StaticContactInfo {
        tcp_acceptors: vec![v4(2, 5000)],
        tcp_mapper_servers: vec![],
    });
    let mut handler = BootstrapHandler { config };
    let info = StaticContactInfo {
        tcp_acceptors: vec![v4(3, 6000), v4(4, 7000)],
        tcp_mapper_servers: vec![],
    };
    handler.update_config(&info);
    let contacts = &handler.config.hard_coded_contacts;
    assert_eq!(contacts.len(), 2);
    assert_eq!(contacts[0].tcp_acceptors, vec![v4(3, 6000), v4(1, 5000)]);
    assert_eq!(contacts[0].tcp_mapper_servers, vec![v4(9, 9)]);
    assert_eq!(contacts[1].tcp_acceptors, vec![v4(2, 5000)]);
}

#[test]
fn config_file_names_and_paths() {
    assert_eq!(config_file_name("p2p3"), "p2p3.crust.config");
    assert_eq!(bootstrap_config_path("p2p3.crust.config"), "target/debug/p2p3.crust.config");
    assert_eq!(update_config_path("p2p3.crust.config"), "temp/p2p3.crust.config");
}
