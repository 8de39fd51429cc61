use redirectionio::http::TrustedProxies;
use redirectionio::http::request::IpAddress;
use redirectionio::http::trusted_proxies::TrustedProxyError;

#[test]
fn local_networks_hold_loopback_and_private_addresses() {
    let proxies = TrustedProxies::new_local();
    assert_eq!(proxies.len(), 6);
    assert!(!proxies.is_empty());
    assert!(proxies.contains(&IpAddress::V4([127, 0, 0, 1])));
    assert!(proxies.contains(&IpAddress::V4([10, 20, 30, 40])));
    assert!(proxies.contains(&IpAddress::V4([172, 31, 255, 255])));
    assert!(!proxies.contains(&IpAddress::V4([172, 32, 0, 1])));
    assert!(proxies.contains(&IpAddress::V4([192, 168, 1, 1])));
    assert!(!proxies.contains(&IpAddress::V4([8, 8, 8, 8])));
    assert!(proxies.contains(&IpAddress::V6([0, 0, 0, 0, 0, 0, 0, 1])));
    assert!(!proxies.contains(&IpAddress::V6([0, 0, 0, 0, 0, 0, 0, 2])));
    assert!(proxies.contains(&IpAddress::V6([0xfd12, 0x3456, 0, 0, 0, 0, 0, 1])));
    assert!(!proxies.contains(&IpAddress::V6([0xfe80, 0, 0, 0, 0, 0, 0, 1])));
}

#[test]
fn an_added_network_is_trusted_and_a_bad_one_is_refused() {
    let mut proxies = TrustedProxies::default();
    assert!(proxies.is_empty());
    assert!(!proxies.contains(&IpAddress::V4([1, 2, 3, 4])));
    assert_eq!(proxies.add_trusted_proxy("1.2.3.0/24"), Ok(()));
    assert!(proxies.contains(&IpAddress::V4([1, 2, 3, 4])));
    assert!(!proxies.contains(&IpAddress::V4([1, 2, 4, 4])));
    assert!(!proxies.contains(&IpAddress::V6([0x102, 0x304, 0, 0, 0, 0, 0, 0])));
    assert_eq!(proxies.add_trusted_proxy("not a network"), Err(TrustedProxyError::InvalidNetwork));
    assert_eq!(proxies.add_trusted_proxy("1.2.3.4/40"), Err(TrustedProxyError::InvalidNetwork));
    assert_eq!(proxies.len(), 1);
    assert_eq!(proxies.add_trusted_proxy("5.6.7.8"), Ok(()));
    assert!(proxies.contains(&IpAddress::V4([5, 6, 7, 8])));
    assert!(!proxies.contains(&IpAddress::V4([5, 6, 7, 9])));
    assert_eq!(proxies.add_trusted_proxy("2001:db8::/32"), Ok(()));
    assert!(proxies.contains(&IpAddress::V6([0x2001, 0xdb8, 0xffff, 0, 0, 0, 0, 1])));
    assert!(!proxies.contains(&IpAddress::V6([0x2001, 0xdb9, 0, 0, 0, 0, 0, 1])));
}

#[test]
fn any_holds_every_address() {
    let mut proxies = TrustedProxies::default();
    assert_eq!(proxies.add_trusted_proxy("any"), Ok(()));
    assert!(proxies.contains(&IpAddress::V4([8, 8, 8, 8])));
    assert!(proxies.contains(&IpAddress::V6([0x2001, 0xdb8, 0, 0, 0, 0, 0, 1])));
}

#[test]
fn trusted_addresses_are_removed_and_the_order_kept() {
    let proxies = TrustedProxies::new_local();
    let ips = vec![
        IpAddress::V4([1, 1, 1, 1]),
        IpAddress::V4([192, 168, 0, 1]),
        IpAddress::V4([8, 8, 8, 8]),
        IpAddress::V6([0, 0, 0, 0, 0, 0, 0, 1]),
        IpAddress::V4([9, 9, 9, 9]),
    ];
    assert_eq!(
        proxies.remove_trusted_ips(ips),
        vec![IpAddress::V4([1, 1, 1, 1]), IpAddress::V4([8, 8, 8, 8]), IpAddress::V4([9, 9, 9, 9])]
    );
    assert_eq!(proxies.remove_trusted_ips(Vec::new()), Vec::new());
}
