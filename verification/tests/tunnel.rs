use dragonfly::config::TunnelConfig;
use dragonfly::error::AppError;
use dragonfly::tunnel::{
    auto_tunnels_for, bind_error, open_request, open_tunnel, plan_tunnel, tunnel_connection_id, OpenTunnels, Socks5Action,
    Socks5Handshake, TunnelPlan,
};

fn tunnel(kind: &str, conn: Option<&str>, auto: bool) -> TunnelConfig {
    TunnelConfig {
        id: format!("{kind}-id"),
        name: "t".to_string(),
        tunnel_type: kind.to_string(),
        connection_id: conn.map(str::to_string),
        listen_port: 8080,
        target_host: "db.internal".to_string(),
        target_port: 5432,
        is_open: false,
        auto_open: auto,
        bind_localhost: true,
    }
}

#[test]
fn tunnel_plans_by_type() {
    match plan_tunnel(&tunnel("local", Some("c"), false)).unwrap() {
        TunnelPlan::Local { bind_addr, port, target_host, target_port } => {
            assert_eq!(bind_addr, "127.0.0.1");
            assert_eq!(port, 8080);
            assert_eq!(target_host, "db.internal");
            assert_eq!(target_port, 5432);
        }
        other => panic!("unexpected {other:?}"),
    }
    let mut t = tunnel("dynamic", Some("c"), false);
    t.bind_localhost = false;
    match plan_tunnel(&t).unwrap() {
        TunnelPlan::Dynamic { bind_addr, port } => {
            assert_eq!(bind_addr, "0.0.0.0");
            assert_eq!(port, 8080);
        }
        other => panic!("unexpected {other:?}"),
    }
    assert!(matches!(plan_tunnel(&tunnel("remote", None, false)), Ok(TunnelPlan::Remote { .. })));
    match plan_tunnel(&tunnel("udp", Some("c"), false)) {
        Err(AppError::Channel(m)) => assert_eq!(m, "Unknown tunnel type: udp"),
        other => panic!("unexpected {other:?}"),
    }
}

#[test]
fn tunnel_needs_a_connection() {
    assert_eq!(tunnel_connection_id(&tunnel("local", Some("c1"), false)).unwrap(), "c1");
    match tunnel_connection_id(&tunnel("local", None, false)) {
        Err(AppError::Channel(m)) => assert_eq!(m, "Tunnel has no connection_id"),
        other => panic!("unexpected {other:?}"),
    }
}

#[test]
fn bind_errors_name_the_port() {
    match bind_error(false, 8080, "address in use") {
        AppError::Channel(m) => assert_eq!(m, "Failed to bind local port 8080: address in use"),
        other => panic!("unexpected {other:?}"),
    }
    match bind_error(true, 1080, "denied") {
        AppError::Channel(m) => assert_eq!(m, "Failed to bind SOCKS5 port 1080: denied"),
        other => panic!("unexpected {other:?}"),
    }
}

#[test]
fn open_tunnels_are_tracked() {
    let mut open = OpenTunnels::new();
    assert!(!open.is_open("a"));
    open.mark_open("a");
    open.mark_open("a");
    open.mark_open("b");
    assert!(open.is_open("a") && open.is_open("b"));
    assert!(open.close("a"));
    assert!(!open.is_open("a"));
    assert!(open.is_open("b"));
    assert!(!open.close("a"));
}

#[test]
fn auto_tunnels_follow_their_connection() {
    let list = vec![
        tunnel("local", Some("c1"), true),
        tunnel("local", Some("c2"), true),
        tunnel("local", Some("c1"), false),
        tunnel("dynamic", Some("c1"), true),
        tunnel("remote", None, true),
    ];
    assert_eq!(auto_tunnels_for(&list, "c1"), vec![0, 3]);
    assert_eq!(auto_tunnels_for(&list, "c3"), Vec::<usize>::new());
}

fn read_len(a: &Socks5Action) -> usize {
    match a {
        Socks5Action::Read(n) => *n,
        Socks5Action::WriteThenRead(_, n) => *n,
        other => panic!("expected a read, got {other:?}"),
    }
}

#[test]
fn socks5_connect_to_domain() {
    let (mut h, a) = Socks5Handshake::new();
    assert_eq!(read_len(&a), 2);
    let a = h.on_bytes(&[5, 2]);
    assert_eq!(read_len(&a), 2);
    let a = h.on_bytes(&[0, 2]);
    match &a {
        Socks5Action::WriteThenRead(w, 4) => assert_eq!(w, &vec![5u8, 0]),
        other => panic!("unexpected {other:?}"),
    }
    let a = h.on_bytes(&[5, 1, 0, 3]);
    assert_eq!(read_len(&a), 1);
    let a = h.on_bytes(&[11]);
    assert_eq!(read_len(&a), 11);
    let a = h.on_bytes(b"example.com");
    assert_eq!(read_len(&a), 2);
    match h.on_bytes(&[0x01, 0xbb]) {
        Socks5Action::Connect(host, port) => {
            assert_eq!(host, "example.com");
            assert_eq!(port, 443);
        }
        other => panic!("unexpected {other:?}"),
    }
    match h.on_connect(true) {
        Socks5Action::WriteThenRelay(w) => assert_eq!(w, vec![5u8, 0, 0, 1, 0, 0, 0, 0, 0, 0]),
        other => panic!("unexpected {other:?}"),
    }
}

#[test]
fn socks5_connect_to_ipv4_and_refusal() {
    let (mut h, _) = Socks5Handshake::new();
    h.on_bytes(&[5, 0]);
    h.on_bytes(&[]);
    assert_eq!(read_len(&h.on_bytes(&[5, 1, 0, 1])), 4);
    assert_eq!(read_len(&h.on_bytes(&[10, 0, 0, 254])), 2);
    match h.on_bytes(&[0, 22]) {
        Socks5Action::Connect(host, port) => {
            assert_eq!(host, "10.0.0.254");
            assert_eq!(port, 22);
        }
        other => panic!("unexpected {other:?}"),
    }
    match h.on_connect(false) {
        Socks5Action::WriteThenClose(w) => assert_eq!(w, vec![5u8, 5, 0, 1, 0, 0, 0, 0, 0, 0]),
        other => panic!("unexpected {other:?}"),
    }
}

#[test]
fn socks5_ipv6_host_is_supplied_as_text() {
    let (mut h, _) = Socks5Handshake::new();
    h.on_bytes(&[5, 1]);
    h.on_bytes(&[0]);
    assert_eq!(read_len(&h.on_bytes(&[5, 1, 0, 4])), 16);
    assert_eq!(h.expected(), 16);
    assert_eq!(read_len(&h.on_ipv6_host("::1".to_string())), 2);
    match h.on_bytes(&[0, 80]) {
        Socks5Action::Connect(host, port) => assert_eq!((host.as_str(), port), ("::1", 80)),
        other => panic!("unexpected {other:?}"),
    }
}

#[test]
fn socks5_rejections() {
    let (mut h, _) = Socks5Handshake::new();
    assert!(matches!(h.on_bytes(&[4, 1]), Socks5Action::Close));

    let (mut h, _) = Socks5Handshake::new();
    h.on_bytes(&[5, 1]);
    h.on_bytes(&[0]);
    match h.on_bytes(&[5, 2, 0, 1]) {
        Socks5Action::WriteThenClose(w) => assert_eq!(w, vec![5u8, 7, 0, 1, 0, 0, 0, 0, 0, 0]),
        other => panic!("unexpected {other:?}"),
    }

    let (mut h, _) = Socks5Handshake::new();
    h.on_bytes(&[5, 1]);
    h.on_bytes(&[0]);
    assert!(matches!(h.on_bytes(&[5, 1, 0, 9]), Socks5Action::Close));
}

#[test]
fn opening_an_open_tunnel_asks_for_nothing() {
    let mut open = OpenTunnels::new();
    let t = tunnel("local", Some("conn-1"), false);
    assert!(matches!(open_request(&open, &t), Ok(Some(c)) if c == "conn-1"));
    open.mark_open(&t.id);
    assert!(matches!(open_request(&open, &t), Ok(None)));
    let orphan = tunnel("remote", None, false);
    match open_request(&open, &orphan) {
        Err(AppError::Channel(m)) => assert_eq!(m, "Tunnel has no connection_id"),
        other => panic!("unexpected {:?}", other.is_ok()),
    }
}

#[test]
fn open_tunnel_records_only_what_opens() {
    let mut open = OpenTunnels::new();
    let t = tunnel("dynamic", Some("c1"), false);
    match open_tunnel(&mut open, &t) {
        Ok(Some((c, TunnelPlan::Dynamic { bind_addr, port }))) => {
            assert_eq!(c, "c1");
            assert_eq!(bind_addr, "127.0.0.1");
            assert_eq!(port, 8080);
        },
        _ => panic!("expected a dynamic plan"),
    }
    assert!(open.is_open(&t.id));
    assert!(matches!(open_tunnel(&mut open, &t), Ok(None)));
    let odd = tunnel("weird", Some("c1"), false);
    match open_tunnel(&mut open, &odd) {
        Err(AppError::Channel(m)) => assert_eq!(m, "Unknown tunnel type: weird"),
        _ => panic!("expected an error"),
    }
    assert!(!open.is_open(&odd.id));
    let orphan = tunnel("local", None, false);
    assert!(open_tunnel(&mut open, &orphan).is_err());
    assert!(!open.is_open(&orphan.id));
}
