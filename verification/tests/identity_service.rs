use orb::identity::{identity_from_stored_key, node_id_from_secret, node_id_from_stored_text};
use orb::service::{
    instance_name, needs_reregistration, service_description, service_info, service_info_from,
    service_type, ServiceError,
};
use orb::state::State;

fn rfc8032_secret() -> [u8; 32] {
    let hex = "9d61b19deffd5a60ba844af492ec2cc44449c5697b326919703bac031cae7f60";
    let mut out = [0u8; 32];
    for i in 0..32 {
        out[i] = u8::from_str_radix(&hex[2 * i..2 * i + 2], 16).unwrap();
    }
    out
}

const RFC8032_PUBLIC: &str = "d75a980182b10ab7d54bfed3c964073a0ee172f3daa62325af021a68f707511a";

#[test]
fn node_id_is_hex_public_key() {
    assert_eq!(node_id_from_secret(&rfc8032_secret()), RFC8032_PUBLIC);
}

#[test]
fn stored_key_is_used() {
    let secret = rfc8032_secret();
    let id = identity_from_stored_key(Some(&secret[..]));
    assert!(id.new_secret.is_none());
    assert_eq!(id.node_id, RFC8032_PUBLIC);
}

#[test]
fn short_or_missing_key_is_replaced() {
    for stored in [Some(&[1u8, 2, 3][..]), None, Some(&[0u8; 33][..])] {
        let id = identity_from_stored_key(stored);
        let secret = id.new_secret.expect("a new key");
        assert_eq!(id.node_id, node_id_from_secret(&secret));
        assert_eq!(id.node_id.len(), 64);
        assert!(id.node_id.chars().all(|c| c.is_ascii_hexdigit() && !c.is_ascii_uppercase()));
    }
}

#[test]
fn stored_text_id_is_trimmed() {
    assert_eq!(node_id_from_stored_text(Some("  abc-123\n")), ("abc-123".to_string(), false));
    assert_eq!(node_id_from_stored_text(Some("")), (String::new(), false));
}

#[test]
fn missing_text_id_is_a_new_uuid() {
    let (id, fresh) = node_id_from_stored_text(None);
    assert!(fresh);
    assert_eq!(id.len(), 36);
    let b: Vec<char> = id.chars().collect();
    for (i, c) in b.iter().enumerate() {
        if i == 8 || i == 13 || i == 18 || i == 23 {
            assert_eq!(*c, '-');
        } else {
            assert!(c.is_ascii_hexdigit() && !c.is_ascii_uppercase());
        }
    }
    assert_eq!(b[14], '4');
    assert!("89ab".contains(b[19]));
}

#[test]
fn service_record_builds() {
    assert_eq!(service_type(), "_orb._udp.local.");
    assert_eq!(instance_name("abc"), "orb-abc");
    let info = service_info("abc", "host-user", State::Receive).expect("fits");
    assert_eq!(info.get_fullname(), "orb-abc._orb._udp.local.");
    assert_eq!(info.get_port(), 34254);
    assert_eq!(info.get_property_val_str("state"), Some("RECEIVE"));
    assert_eq!(info.get_property_val_str("name"), Some("host-user"));
    assert_eq!(info.get_property_val_str("id"), Some("abc"));
}

#[test]
fn service_record_with_long_name_fails() {
    let fits = "n".repeat(250);
    assert!(service_info("abc", &fits, State::Idle).is_ok());
    let too_long = "n".repeat(251);
    assert_eq!(service_info("abc", &too_long, State::Idle).err(), Some(ServiceError::PropertyTooLong));
    let long_id = "i".repeat(253);
    assert!(service_info(&long_id, "n", State::Idle).is_err());
    assert!(service_info(&"i".repeat(252), "n", State::Idle).is_ok());
}

#[test]
fn reregistration_on_state_change() {
    assert!(!needs_reregistration(State::Idle, State::Idle));
    assert!(needs_reregistration(State::Idle, State::Send));
    assert!(needs_reregistration(State::Receive, State::Idle));
}

#[test]
fn service_description_contents() {
    let d = service_description("abc", "box-bob", State::Send);
    assert_eq!(d.ty_domain, "_orb._udp.local.");
    assert_eq!(d.instance, "orb-abc");
    assert_eq!(d.host, "orb.local.");
    assert_eq!(d.addresses, "");
    assert_eq!(d.port, 34254);
    assert_eq!(
        d.properties,
        vec![
            ("id".to_string(), "abc".to_string()),
            ("name".to_string(), "box-bob".to_string()),
            ("state".to_string(), "SEND".to_string()),
        ]
    );
    let info = service_info_from(&d).expect("fits");
    assert_eq!(info.get_type(), "_orb._udp.local.");
    assert_eq!(info.get_hostname(), "orb.local.");
    assert_eq!(info.get_property_val_str("state"), Some("SEND"));
    assert_eq!(State::from_property(info.get_property_val_str("state")), State::Send);
    assert!(service_info_from(&service_description("abc", &"n".repeat(251), State::Idle)).is_err());
}

#[test]
fn registered_record_carries_the_state() {
    for s in [State::Idle, State::Send, State::Receive] {
        let info = service_info("n1", "h-u", s).expect("fits");
        assert_eq!(info.get_type(), "_orb._udp.local.");
        assert_eq!(info.get_fullname(), "orb-n1._orb._udp.local.");
        assert_eq!(info.get_hostname(), "orb.local.");
        assert_eq!(info.get_port(), 34254);
        assert_eq!(info.get_property_val_str("id"), Some("n1"));
        assert_eq!(info.get_property_val_str("name"), Some("h-u"));
        assert_eq!(State::from_property(info.get_property_val_str("state")), s);
        let keys: Vec<&str> = info.get_properties().iter().map(|p| p.key()).collect();
        assert_eq!(keys, vec!["id", "name", "state"]);
    }
    let dotted = service_info("a.b", "x", State::Idle).expect("fits");
    assert_eq!(dotted.get_fullname(), "orb-a\\.b._orb._udp.local.");
}
