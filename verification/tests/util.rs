use porthole::util::{
    display_path, is_vpn_iface, link_for, picker_start, rank, render_with_tilde, select_local_ip,
    server_url, split_display, FolderPath, Ipv4, KnownFolder, NetInterface,
};

#[test]
fn ranks_home_lan_ahead_of_carrier_grade() {
    let mut ips = [
        Ipv4::new(10, 8, 1, 2),
        Ipv4::new(192, 168, 0, 112),
        Ipv4::new(172, 20, 5, 5),
    ];
    ips.sort_by_key(rank);
    assert_eq!(ips[0], Ipv4::new(192, 168, 0, 112));
    assert_eq!(ips[1], Ipv4::new(172, 20, 5, 5));
}

#[test]
fn recognizes_tunnel_interface_names() {
    assert!(is_vpn_iface("tun0"));
    assert!(is_vpn_iface("wg0"));
    assert!(is_vpn_iface("utun3"));
    assert!(!is_vpn_iface("wlo1"));
    assert!(!is_vpn_iface("eth0"));
}

#[test]
fn replaces_home_dir_with_tilde() {
    let home = dirs::home_dir().expect("home dir must be set for this test");
    let home = home.to_str().unwrap();
    assert_eq!(
        display_path(home, Some(home)),
        FolderPath {
            prefix: String::new(),
            name: "~".to_string(),
        }
    );
    let documents = std::path::Path::new(home).join("Documents");
    assert_eq!(
        display_path(documents.to_str().unwrap(), Some(home)),
        FolderPath {
            prefix: "~/".to_string(),
            name: "Documents".to_string(),
        }
    );
}

#[test]
fn leaves_non_home_paths_untouched() {
    let home = dirs::home_dir();
    let home = home.as_ref().and_then(|h| h.to_str());
    assert_eq!(
        display_path("/srv/shared", home),
        FolderPath {
            prefix: "/srv/".to_string(),
            name: "shared".to_string(),
        }
    );
}

#[test]
fn display_path_without_known_home_keeps_path() {
    assert_eq!(
        display_path("/home/user/Music", None),
        FolderPath {
            prefix: "/home/user/".to_string(),
            name: "Music".to_string(),
        }
    );
}

#[test]
fn tilde_rendering_follows_path_components() {
    assert_eq!(render_with_tilde("/home/user/Music", Some("/home/user")), "~/Music");
    assert_eq!(render_with_tilde("/home/user", Some("/home/user/")), "~");
    assert_eq!(render_with_tilde("/home/username", Some("/home/user")), "/home/username");
}

#[test]
fn split_display_without_slash_has_empty_prefix() {
    assert_eq!(
        split_display("shared"),
        FolderPath {
            prefix: String::new(),
            name: "shared".to_string(),
        }
    );
    assert_eq!(
        split_display("/"),
        FolderPath {
            prefix: "/".to_string(),
            name: String::new(),
        }
    );
}

fn iface(name: &str, is_loopback: bool, ipv4: Option<Ipv4>) -> NetInterface {
    NetInterface {
        name: name.to_string(),
        is_loopback,
        ipv4,
    }
}

#[test]
fn select_local_ip_prefers_home_lan_and_skips_vpn_and_loopback() {
    let ifaces = vec![
        iface("lo", true, Some(Ipv4::new(127, 0, 0, 1))),
        iface("wg0", false, Some(Ipv4::new(192, 168, 9, 9))),
        iface("eth0", false, Some(Ipv4::new(10, 0, 0, 5))),
        iface("eth1", false, None),
        iface("wlo1", false, Some(Ipv4::new(172, 16, 0, 3))),
        iface("wlo2", false, Some(Ipv4::new(192, 168, 1, 20))),
        iface("wlo3", false, Some(Ipv4::new(192, 168, 1, 30))),
        iface("eth2", false, Some(Ipv4::new(8, 8, 8, 8))),
    ];
    assert_eq!(select_local_ip(&ifaces), Some(Ipv4::new(192, 168, 1, 20)));
}

#[test]
fn select_local_ip_finds_nothing_without_private_address() {
    let ifaces = vec![
        iface("lo", true, Some(Ipv4::new(127, 0, 0, 1))),
        iface("tun0", false, Some(Ipv4::new(10, 8, 0, 2))),
        iface("eth0", false, Some(Ipv4::new(1, 2, 3, 4))),
        iface("eth1", false, Some(Ipv4::new(172, 32, 0, 1))),
    ];
    assert_eq!(select_local_ip(&ifaces), None);
}

#[test]
fn private_ranges_are_recognized() {
    assert!(Ipv4::new(10, 255, 0, 1).is_private());
    assert!(Ipv4::new(172, 16, 0, 1).is_private());
    assert!(Ipv4::new(172, 31, 255, 255).is_private());
    assert!(!Ipv4::new(172, 32, 0, 1).is_private());
    assert!(Ipv4::new(192, 168, 0, 1).is_private());
    assert!(!Ipv4::new(192, 169, 0, 1).is_private());
    assert_eq!(rank(&Ipv4::new(172, 31, 0, 1)), 1);
    assert_eq!(rank(&Ipv4::new(10, 0, 0, 1)), 2);
}

#[test]
fn server_url_renders_address_and_port() {
    assert_eq!(server_url(Ipv4::new(192, 168, 0, 112), 8080), "http://192.168.0.112:8080");
    assert_eq!(server_url(Ipv4::new(10, 0, 0, 1), 0), "http://10.0.0.1:0");
    assert_eq!(server_url(Ipv4::new(255, 255, 255, 255), 65535), "http://255.255.255.255:65535");
    assert_eq!(link_for(Some(Ipv4::new(10, 0, 0, 1)), None), None);
    assert_eq!(link_for(None, Some(80)), None);
}

#[test]
fn picker_starts_at_last_existing_folder_else_home() {
    let folders = vec![
        KnownFolder { path: "/a".to_string(), exists: true },
        KnownFolder { path: "/b".to_string(), exists: true },
        KnownFolder { path: "/c".to_string(), exists: false },
    ];
    assert_eq!(picker_start(&folders, Some("/home/u".to_string())), Some("/b".to_string()));
    let gone = vec![KnownFolder { path: "/c".to_string(), exists: false }];
    assert_eq!(picker_start(&gone, Some("/home/u".to_string())), Some("/home/u".to_string()));
    assert_eq!(picker_start(&Vec::new(), None), None);
}

#[test]
fn home_ending_in_a_separator_is_also_written_as_tilde() {
    assert_eq!(
        display_path("/home/u/Documents", Some("/home/u/")),
        FolderPath {
            prefix: "~/".to_string(),
            name: "Documents".to_string(),
        }
    );
    assert_eq!(
        display_path("/Documents", Some("/")),
        FolderPath {
            prefix: "~/".to_string(),
            name: "Documents".to_string(),
        }
    );
}
