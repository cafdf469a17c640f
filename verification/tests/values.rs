use fwos::bootstrap_values::{addressing, delegated_lan, interface};
use fwos::identity::eq_ct;
use fwos::ip::{cidr, read, IpAddr};

#[test]
fn delegated_prefix_normalizes_expanded_and_compressed_notation() {
    let expanded = delegated_lan("fd53:0001:0001:00ff:0000:0000:0000:0000/56").unwrap();
    let compressed = delegated_lan("fd53:1:1:ff::/56").unwrap();
    assert_eq!(expanded.address_cidr, compressed.address_cidr);
    assert_eq!(expanded.address_cidr, "fd53:1:1::1/64");
    assert_eq!(expanded.subnet_cidr, "fd53:1:1::/64");
    assert_eq!(expanded.pool_start, "fd53:1:1::100");
    assert_eq!(expanded.pool_end, "fd53:1:1::1ff");
}

#[test]
fn lan_prefix_requires_usable_ipv4_hosts() {
    assert!(addressing(Some("192.168.1.0/24"), None, None).is_ok());
    assert!(addressing(Some("192.168.1.0/31"), None, None).is_err());
    assert!(addressing(Some("192.168.1.0/32"), None, None).is_err());
}

#[test]
fn eq_ct_matches_only_same_bytes() {
    assert!(eq_ct(b"abc", b"abc"));
    assert!(!eq_ct(b"abc", b"abd"));
    assert!(!eq_ct(b"ab", b"abc"));
}

#[test]
fn a_delegated_lan_reads_back() {
    let lan = delegated_lan("2001:db8:aa00::/40").unwrap();
    let subnet: u128 = 0x2001_0db8_aa00_0000 << 64;
    assert_eq!(cidr(&lan.address_cidr), Some((IpAddr::V6(subnet + 1), 64)));
    assert_eq!(cidr(&lan.subnet_cidr), Some((IpAddr::V6(subnet), 64)));
    assert_eq!(read(&lan.pool_start), Some(IpAddr::V6(subnet + 0x100)));
    assert_eq!(read(&lan.pool_end), Some(IpAddr::V6(subnet + 0x1ff)));
    assert!(delegated_lan("2001:db8::/65").is_none());
    assert!(delegated_lan("192.0.2.0/24").is_none());
    assert!(delegated_lan("x").is_none());
}

#[test]
fn interfaces_are_checked() {
    let check = |name: &str, parent: Option<&str>, vlan: Option<u16>, address: &str| {
        interface(name, parent, vlan, &[address.to_string()]).err()
    };
    assert_eq!(check("enp1s0", None, None, "10.0.0.1/8"), None);
    assert_eq!(check("enp1s0.10", None, Some(10), "10.0.0.1/8"), None);
    assert_eq!(check("guest", Some("enp1s0"), Some(4094), "fd00::1/64"), None);
    let says = |error: &str| Some(error.to_string());
    for name in ["", "a b", "sixteencharacter", "a/b"] {
        assert_eq!(check(name, None, None, "10.0.0.1/8"), says(&format!("invalid interface name {name}")));
    }
    assert_eq!(
        check("guest", Some("guest"), Some(1), "10.0.0.1/8"),
        says("invalid parent for interface guest")
    );
    assert_eq!(check("guest", Some("a b"), Some(1), "10.0.0.1/8"), says("invalid parent for interface guest"));
    assert_eq!(
        check("guest", Some("enp1s0"), None, "10.0.0.1/8"),
        says("interface guest has parent without VLAN")
    );
    for vid in [0, 4095] {
        assert_eq!(
            check("enp1s0.1", None, Some(vid), "10.0.0.1/8"),
            says(&format!("VLAN ID {vid} is outside 1-4094"))
        );
    }
    assert_eq!(check("guest", None, Some(1), "10.0.0.1/8"), says("VLAN interface guest needs a parent"));
    assert_eq!(check("enp1s0", None, None, "10.0.0.1"), says("invalid interface address 10.0.0.1"));
}

#[test]
fn addressing_is_checked() {
    let check = |lan: &str, pool: &str, pd: &str| addressing(Some(lan), Some(pool), Some(pd)).err();
    let says = |error: &str| Some(error.to_string());
    assert_eq!(check("", "", ""), None);
    assert_eq!(check("192.168.1.0/24", "192.168.1.10 - 192.168.1.20", "2001:db8::/48"), None);
    assert_eq!(check("fd00::/64", "", ""), says("invalid lan_prefix IPv4 CIDR"));
    assert_eq!(check("10.0.0.0/0", "", ""), says("invalid lan_prefix IPv4 CIDR"));
    assert_eq!(check("", "x-192.168.1.20", ""), says("invalid dhcp_pool start"));
    assert_eq!(check("", "192.168.1.10-x", ""), says("invalid dhcp_pool end"));
    assert_eq!(check("", "192.168.1.20-192.168.1.10", ""), says("dhcp_pool start exceeds end"));
    assert_eq!(
        check("192.168.2.0/24", "192.168.1.10-192.168.1.20", ""),
        says("dhcp_pool is outside lan_prefix")
    );
    assert_eq!(check("", "192.168.1.10-192.168.2.1", ""), says("dhcp_pool is outside lan_prefix"));
    assert_eq!(check("", "192.168.1.10", "x"), says("invalid wan_pd IPv6 prefix"));
}
