use pigeon::protocol::ids::{clientbound, configuration, handshake, login, play, serverbound, status};

#[test]
fn status_ids_match_data_report() {
    assert_eq!(serverbound("status", status::STATUS_REQUEST), 0);
    assert_eq!(clientbound("status", status::STATUS_RESPONSE), 0);
    assert_eq!(serverbound("status", status::PING_REQUEST), 1);
    assert_eq!(clientbound("status", status::PONG_RESPONSE), 1);
}

#[test]
fn handshake_ids_match_data_report() {
    assert_eq!(serverbound("handshake", handshake::INTENTION), 0);
}

#[test]
fn login_ids_match_data_report() {
    // C -> S side.
    assert_eq!(serverbound("login", login::HELLO), 0);
    assert_eq!(serverbound("login", login::KEY), 1);
    assert_eq!(serverbound("login", login::CUSTOM_QUERY_ANSWER), 2);
    assert_eq!(serverbound("login", login::LOGIN_ACKNOWLEDGED), 3);
    assert_eq!(serverbound("login", login::COOKIE_RESPONSE), 4);
    // S -> C side.
    assert_eq!(clientbound("login", login::LOGIN_DISCONNECT), 0);
    assert_eq!(clientbound("login", login::HELLO_CB), 1);
    assert_eq!(clientbound("login", login::LOGIN_FINISHED), 2);
    assert_eq!(clientbound("login", login::LOGIN_COMPRESSION), 3);
    assert_eq!(clientbound("login", login::CUSTOM_QUERY), 4);
    assert_eq!(clientbound("login", login::COOKIE_REQUEST), 5);
}

#[test]
fn configuration_ids_match_data_report() {
    // S -> C (clientbound)
    assert_eq!(
        clientbound("configuration", configuration::COOKIE_REQUEST),
        0
    );
    assert_eq!(
        clientbound("configuration", configuration::CUSTOM_PAYLOAD_CB),
        1
    );
    assert_eq!(clientbound("configuration", configuration::DISCONNECT), 2);
    assert_eq!(
        clientbound("configuration", configuration::FINISH_CONFIGURATION_CB),
        3
    );
    assert_eq!(
        clientbound("configuration", configuration::KEEP_ALIVE_CB),
        4
    );
    assert_eq!(clientbound("configuration", configuration::PING), 5);
    assert_eq!(clientbound("configuration", configuration::RESET_CHAT), 6);
    assert_eq!(
        clientbound("configuration", configuration::REGISTRY_DATA),
        7
    );
    assert_eq!(
        clientbound("configuration", configuration::RESOURCE_PACK_POP),
        8
    );
    assert_eq!(
        clientbound("configuration", configuration::RESOURCE_PACK_PUSH),
        9
    );
    assert_eq!(
        clientbound("configuration", configuration::STORE_COOKIE),
        10
    );
    assert_eq!(clientbound("configuration", configuration::TRANSFER), 11);
    assert_eq!(
        clientbound("configuration", configuration::UPDATE_ENABLED_FEATURES),
        12
    );
    assert_eq!(clientbound("configuration", configuration::UPDATE_TAGS), 13);
    assert_eq!(
        clientbound("configuration", configuration::SELECT_KNOWN_PACKS),
        14
    );
    assert_eq!(
        clientbound("configuration", configuration::CUSTOM_REPORT_DETAILS),
        15
    );
    assert_eq!(
        clientbound("configuration", configuration::SERVER_LINKS),
        16
    );
    assert_eq!(
        clientbound("configuration", configuration::CLEAR_DIALOG),
        17
    );
    assert_eq!(clientbound("configuration", configuration::SHOW_DIALOG), 18);
    assert_eq!(
        clientbound("configuration", configuration::CODE_OF_CONDUCT),
        19
    );

    // C -> S (serverbound)
    assert_eq!(
        serverbound("configuration", configuration::CLIENT_INFORMATION),
        0
    );
    assert_eq!(
        serverbound("configuration", configuration::COOKIE_RESPONSE),
        1
    );
    assert_eq!(
        serverbound("configuration", configuration::CUSTOM_PAYLOAD_SB),
        2
    );
    assert_eq!(
        serverbound("configuration", configuration::FINISH_CONFIGURATION_SB),
        3
    );
    assert_eq!(
        serverbound("configuration", configuration::KEEP_ALIVE_SB),
        4
    );
    assert_eq!(serverbound("configuration", configuration::PONG), 5);
    assert_eq!(
        serverbound("configuration", configuration::RESOURCE_PACK),
        6
    );
    assert_eq!(
        serverbound("configuration", configuration::SELECT_KNOWN_PACKS_SB),
        7
    );
    assert_eq!(
        serverbound("configuration", configuration::CUSTOM_CLICK_ACTION),
        8
    );
    assert_eq!(
        serverbound("configuration", configuration::ACCEPT_CODE_OF_CONDUCT),
        9
    );
}

#[test]
fn play_ids_match_data_report() {
    // S -> C (clientbound)
    assert_eq!(clientbound("play", play::LOGIN), 48);
    assert_eq!(clientbound("play", play::KEEP_ALIVE), 43);
    assert_eq!(clientbound("play", play::DISCONNECT), 32);
    assert_eq!(clientbound("play", play::PLAYER_INFO_REMOVE), 67);
    assert_eq!(clientbound("play", play::PLAYER_INFO_UPDATE), 68);
    // C -> S (serverbound)
    assert_eq!(serverbound("play", play::KEEP_ALIVE_SB), 27);
    assert_eq!(serverbound("play", play::MOVE_PLAYER_POS), 29);
    assert_eq!(serverbound("play", play::MOVE_PLAYER_POS_ROT), 30);
    assert_eq!(serverbound("play", play::MOVE_PLAYER_ROT), 31);
    assert_eq!(serverbound("play", play::MOVE_PLAYER_STATUS_ONLY), 32);
}
