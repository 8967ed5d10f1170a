use pigeon::config::{load_default, ServerConfig};
use pigeon::protocol::state::ProtocolState;
use pigeon::text::color::{NamedTextColor, TextColor};
use pigeon::text::component::{Component, ComponentStyle};
use pigeon::uuid::Uuid;

#[test]
fn named_colors_have_vanilla_rgb() {
    assert_eq!(TextColor::Named(NamedTextColor::Black).rgb(), 0x000000);
    assert_eq!(TextColor::Named(NamedTextColor::Gold).rgb(), 0xFFAA00);
    assert_eq!(TextColor::Named(NamedTextColor::White).rgb(), 0xFFFFFF);
    assert_eq!(TextColor::Custom(0x123456).rgb(), 0x123456);
}

#[test]
fn hex_is_uppercase_and_padded_to_six() {
    assert_eq!(TextColor::Named(NamedTextColor::Gold).to_hex(), "#FFAA00");
    assert_eq!(TextColor::Named(NamedTextColor::Black).to_hex(), "#000000");
    assert_eq!(TextColor::Custom(0xab).to_hex(), "#0000AB");
    assert_eq!(TextColor::Custom(0x1234567).to_hex(), "#1234567");
    assert_eq!(TextColor::Custom(0xFFFFFFFF).to_hex(), "#FFFFFFFF");
}

#[test]
fn hex_text_reads_back_to_the_rgb_value() {
    for v in [0u32, 0xab, 0xFFAA00, 0xFFFFFF, 0x1234567, 0xFFFFFFFF] {
        let text = TextColor::Custom(v).to_hex();
        assert!(text.starts_with('#'));
        assert!(text[1..].chars().all(|c| c.is_ascii_digit() || ('A'..='F').contains(&c)));
        assert_eq!(u32::from_str_radix(&text[1..], 16), Ok(v));
    }
    assert_eq!(TextColor::Named(NamedTextColor::Aqua).to_hex().len(), 7);
}

#[test]
fn style_builders_set_one_field_each() {
    let s = ComponentStyle::default()
        .color(TextColor::Named(NamedTextColor::Red))
        .bold(true)
        .italic(false);
    assert_eq!(s.color, Some(TextColor::Named(NamedTextColor::Red)));
    assert_eq!(s.bold, Some(true));
    assert_eq!(s.italic, Some(false));
    assert!(s.underlined.is_none());
    let s = s.extra(vec![Component::empty()]);
    assert_eq!(s.extra.len(), 1);
}

#[test]
fn components_start_plain_and_style_in_place() {
    let mut c = Component::text("hi".to_string());
    match &c {
        Component::Text(t) => {
            assert_eq!(t.text, "hi");
            assert!(t.style.color.is_none());
        }
        _ => panic!("expected text"),
    }
    c.style_mut().bold = Some(true);
    c.style_mut().push_extra(Component::translate("chat.type.text".to_string()));
    match &c {
        Component::Text(t) => {
            assert_eq!(t.style.bold, Some(true));
            assert_eq!(t.style.extra.len(), 1);
        }
        _ => panic!("expected text"),
    }
}

#[test]
fn default_config_values() {
    let c = ServerConfig::default_config();
    assert_eq!(c.server.name, "Pigeon Server");
    assert_eq!(c.server.max_players, 20);
    assert_eq!(c.server.default_gamemode, "survival");
    assert_eq!(c.network.bind_address, "0.0.0.0");
    assert_eq!(c.network.port, 25565);
    assert_eq!(c.network.compression_threshold, 256);
    assert_eq!(c.motd.line1, "A Pigeon Server");
    assert!(c.motd.favicon.is_none());
    assert!(c.login.online_mode);
    assert!(!c.login.prevent_proxy_connections);
    assert_eq!(load_default().network.port, 25565);
}

#[test]
fn protocol_state_names() {
    assert_eq!(ProtocolState::default(), ProtocolState::Handshake);
    assert_eq!(ProtocolState::Handshake.as_str(), "handshake");
    assert_eq!(ProtocolState::Play.as_str(), "play");
}

#[test]
fn uuid_bytes_round_trip() {
    let u = Uuid::from_u128(0x0011_2233_4455_6677_8899_aabb_ccdd_eeff);
    let b = u.as_bytes();
    assert_eq!(b[0], 0x00);
    assert_eq!(b[15], 0xff);
    assert_eq!(Uuid::from_bytes(b), u);
    assert_eq!(u.as_u128(), 0x0011_2233_4455_6677_8899_aabb_ccdd_eeff);
    assert_eq!(Uuid::nil().as_u128(), 0);
}
