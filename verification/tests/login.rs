use azalea::buf::{ByteReader, ReadError};
use azalea::client::{
    keeps_ticking, movement_to_send, on_config_packet, on_game_packet, react_to,
    set_client_information, Account, ChatVisibility, ClientInformation, ClientSessionServerError,
    ConnectionAction, ConnectionProtocol, EncryptResult, ErrorReaction, HumanoidArm,
    InConfigState, InGameState, InboundError, JoinError, LoginAction, LoginEvent, LoginPhase,
    LoginState, MovementPacket, PlayerInfo, ProtocolEvent, ServerboundClientInformation, TabList,
    TickClock, WakeOutcome, PROTOCOL_VERSION,
};
use azalea::packets::config::{read_config_packet, ConfigPacket, ServerboundConfigPacket};
use azalea::packets::game::{
    read_game_packet, ClientboundChunkBatchFinished, ClientboundInitializeBorderPacket,
    ClientboundKeepAlive, GamePacket, ServerboundChunkBatchReceivedPacket,
    ServerboundGamePacket, ServerboundKeepAlive,
};
use azalea::game_profile::GameProfile;
use azalea::packets::login::{
    ClientboundCookieRequest, ClientboundCustomQuery, ClientboundHello,
    ClientboundLoginCompressionPacket, ClientboundLoginDisconnect, ClientboundLoginFinished,
    LoginPacket,
};
use azalea::packets::serverbound::{
    ClientIntention, ServerboundIntention, ServerboundLoginPacket,
};
use azalea::write::packet_payload;

fn account(with_token: bool) -> Account {
    Account { username: "bot".to_string(), uuid: Some(77), has_access_token: with_token }
}

fn hello() -> ClientboundHello {
    ClientboundHello {
        server_id: "".to_string(),
        public_key: vec![1, 2, 3],
        challenge: vec![4, 5],
        should_authenticate: true,
    }
}

fn encrypted() -> EncryptResult {
    EncryptResult {
        secret_key: [9; 16],
        encrypted_public_key: vec![10, 11],
        encrypted_challenge: vec![12],
    }
}

fn key_actions() -> Vec<LoginAction> {
    vec![
        LoginAction::Send(ServerboundLoginPacket::Key {
            key_bytes: vec![10, 11],
            encrypted_challenge: vec![12],
        }),
        LoginAction::SetEncryptionKey([9; 16]),
    ]
}

#[test]
fn login_begins_with_intention_and_hello() {
    let (state, actions) = LoginState::begin(account(false), "localhost".to_string(), 25565);
    assert_eq!(state.protocol, ConnectionProtocol::Login);
    assert!(state.wants_packet());
    assert!(!state.is_over());
    assert_eq!(
        actions,
        vec![
            LoginAction::SendIntention(ServerboundIntention {
                protocol_version: PROTOCOL_VERSION,
                hostname: "localhost".to_string(),
                port: 25565,
                intention: ClientIntention::Login,
            }),
            LoginAction::Send(ServerboundLoginPacket::Hello {
                name: "bot".to_string(),
                profile_id: 77
            }),
        ]
    );
    let nameless = Account { username: "x".to_string(), uuid: None, has_access_token: false };
    let (_, actions) = LoginState::begin(nameless, "h".to_string(), 1);
    assert_eq!(
        actions[1],
        LoginAction::Send(ServerboundLoginPacket::Hello { name: "x".to_string(), profile_id: 0 })
    );
}

#[test]
fn login_finished_switches_to_configuration() {
    let (state, _) = LoginState::begin(account(false), "h".to_string(), 1);
    let profile = GameProfile::new(77, "bot".to_string());
    let (state, actions) = state.step(LoginEvent::Packet(LoginPacket::LoginFinished(
        ClientboundLoginFinished { game_profile: profile.clone() },
    )));
    assert_eq!(state.protocol, ConnectionProtocol::Configuration);
    assert_eq!(state.profile, Some(profile));
    assert_eq!(state.phase, LoginPhase::Finished);
    assert!(state.is_over());
    assert_eq!(actions, vec![LoginAction::Send(ServerboundLoginPacket::LoginAcknowledged)]);
    // Nothing happens after the end.
    let (after, actions) = state.clone().step(LoginEvent::Packet(
        ClientboundLoginCompressionPacket { compression_threshold: 1 }.get(),
    ));
    assert_eq!(after, state);
    assert!(actions.is_empty());
}

#[test]
fn authentication_is_retried_once_after_a_refresh() {
    let (state, _) = LoginState::begin(account(true), "h".to_string(), 1);
    let (state, actions) = state.step(LoginEvent::Packet(LoginPacket::Hello(hello())));
    assert_eq!(actions, vec![LoginAction::Encrypt(hello())]);
    assert_eq!(state.phase, LoginPhase::Encrypting);
    let (state, actions) = state.step(LoginEvent::Encrypted(encrypted()));
    assert_eq!(actions, vec![LoginAction::Authenticate { uuid: 77, secret_key: [9; 16] }]);
    let (state, actions) = state.step(LoginEvent::AuthenticationFailed(
        ClientSessionServerError::InvalidSession,
    ));
    assert_eq!(actions, vec![LoginAction::Refresh]);
    let (state, actions) = state.step(LoginEvent::Refreshed);
    assert_eq!(actions, vec![LoginAction::Authenticate { uuid: 77, secret_key: [9; 16] }]);
    assert_eq!(
        state.phase,
        LoginPhase::Authenticating { attempts: 2, encrypted: encrypted() }
    );
    let (done, actions) = state.clone().step(LoginEvent::Authenticated);
    assert_eq!(actions, key_actions());
    assert_eq!(done.encryption_key, Some([9; 16]));
    assert!(done.wants_packet());
    let (done, actions) = done.step(LoginEvent::Packet(LoginPacket::LoginFinished(
        ClientboundLoginFinished { game_profile: GameProfile::new(77, "bot".to_string()) },
    )));
    assert!(done.is_over());
    assert_eq!(done.protocol, ConnectionProtocol::Configuration);
    assert_eq!(actions.len(), 1);
    // A second refusal ends the login.
    let (failed, actions) = state.step(LoginEvent::AuthenticationFailed(
        ClientSessionServerError::InvalidSession,
    ));
    assert_eq!(actions, vec![LoginAction::Fail(JoinError::Auth)]);
    assert_eq!(failed.phase, LoginPhase::Failed);
}

#[test]
fn other_refusals_and_failed_refreshes_end_the_login() {
    let start = || {
        let (state, _) = LoginState::begin(account(true), "h".to_string(), 1);
        let (state, _) = state.step(LoginEvent::Packet(LoginPacket::Hello(hello())));
        state.step(LoginEvent::Encrypted(encrypted())).0
    };
    let (failed, actions) =
        start().step(LoginEvent::AuthenticationFailed(ClientSessionServerError::Other));
    assert!(failed.is_over());
    assert_eq!(
        actions,
        vec![LoginAction::Fail(JoinError::SessionServer(ClientSessionServerError::Other))]
    );
    let (refreshing, actions) = start().step(LoginEvent::AuthenticationFailed(
        ClientSessionServerError::ForbiddenOperation,
    ));
    assert_eq!(actions, vec![LoginAction::Refresh]);
    let (failed, actions) = refreshing.step(LoginEvent::RefreshFailed);
    assert_eq!(actions, vec![LoginAction::Fail(JoinError::Auth)]);
    assert_eq!(failed.phase, LoginPhase::Failed);
    assert!(ClientSessionServerError::InvalidSession.is_curable());
    assert!(!ClientSessionServerError::Other.is_curable());
}

#[test]
fn offline_account_sends_the_key_at_once() {
    let (state, _) = LoginState::begin(account(false), "h".to_string(), 1);
    let (state, _) = state.step(LoginEvent::Packet(LoginPacket::Hello(hello())));
    let (state, actions) = state.step(LoginEvent::Encrypted(encrypted()));
    assert_eq!(actions, key_actions());
    assert_eq!(state.encryption_key, Some([9; 16]));
    assert_eq!(state.phase, LoginPhase::AwaitingPacket);
    // An access token without a UUID cannot be vouched for.
    let broken = Account { username: "x".to_string(), uuid: None, has_access_token: true };
    let (state, _) = LoginState::begin(broken, "h".to_string(), 1);
    let (state, _) = state.step(LoginEvent::Packet(LoginPacket::Hello(hello())));
    let (state, actions) = state.step(LoginEvent::Encrypted(encrypted()));
    assert_eq!(actions, vec![LoginAction::Fail(JoinError::Auth)]);
    assert!(state.is_over());
}

#[test]
fn a_failed_encryption_goes_back_to_waiting() {
    let (state, _) = LoginState::begin(account(false), "h".to_string(), 1);
    let (state, _) = state.step(LoginEvent::Packet(LoginPacket::Hello(hello())));
    assert!(!state.wants_packet());
    // A packet is not waited for while the challenge is encrypted.
    let (same, actions) = state.clone().step(LoginEvent::Packet(
        ClientboundLoginCompressionPacket { compression_threshold: 5 }.get(),
    ));
    assert_eq!(same, state);
    assert!(actions.is_empty());
    let (state, actions) = state.step(LoginEvent::EncryptFailed);
    assert!(actions.is_empty());
    assert!(state.wants_packet());
}

#[test]
fn the_other_login_packets() {
    let (state, _) = LoginState::begin(account(false), "h".to_string(), 1);
    let (state, actions) = state.step(LoginEvent::Packet(
        ClientboundLoginCompressionPacket { compression_threshold: 256 }.get(),
    ));
    assert_eq!(actions, vec![LoginAction::SetCompressionThreshold(256)]);
    assert_eq!(state.compression_threshold, Some(256));
    let (state, actions) = state.step(LoginEvent::Packet(LoginPacket::CookieRequest(
        ClientboundCookieRequest { key: "minecraft:k".to_string() },
    )));
    assert_eq!(
        actions,
        vec![LoginAction::Send(ServerboundLoginPacket::CookieResponse {
            key: "minecraft:k".to_string(),
            payload: None
        })]
    );
    let query = || {
        LoginEvent::Packet(LoginPacket::CustomQuery(ClientboundCustomQuery {
            transaction_id: 3,
            identifier: "a:b".to_string(),
            data: vec![1],
        }))
    };
    let (mut state, actions) = state.step(query());
    assert_eq!(
        actions,
        vec![LoginAction::Send(ServerboundLoginPacket::CustomQueryAnswer {
            transaction_id: 3,
            data: None
        })]
    );
    state.answer_custom_queries = false;
    let (state, actions) = state.step(query());
    assert!(actions.is_empty());
    let (state, actions) = state.step(LoginEvent::Packet(LoginPacket::LoginDisconnect(
        ClientboundLoginDisconnect { reason: "{\"text\":\"no\"}".to_string() },
    )));
    assert_eq!(
        actions,
        vec![LoginAction::Fail(JoinError::Disconnect { reason: "{\"text\":\"no\"}".to_string() })]
    );
    assert_eq!(state.phase, LoginPhase::Failed);
    assert_eq!(state.protocol, ConnectionProtocol::Login);
    assert_eq!(state.profile, None);
    assert_ne!(JoinError::ReadPacket(ReadError::ShortRead), JoinError::Io);
}

#[test]
fn tick_clock_bursts_up_to_ten_ticks() {
    let tick = 50_000_000u64;
    let mut clock = TickClock::new();
    assert!(clock.tick(1_000));
    assert_eq!(clock.last_tick, Some(1_000));
    assert!(!clock.tick(1_000 + tick));
    assert!(clock.tick(1_001 + tick));
    assert_eq!(clock.last_tick, Some(1_000 + tick));
    // After a stall of a hundred ticks, ten are made up for and the rest dropped.
    let now = 1_000 + 100 * tick;
    let mut made_up = 0;
    while clock.tick(now) {
        made_up += 1;
    }
    assert_eq!(made_up, 10);
    assert_eq!(clock.last_tick, Some(now - tick));
    let mut back = TickClock { last_tick: Some(500) };
    assert!(!back.tick(100));
    assert_eq!(back.last_tick, Some(500));
}

#[test]
fn tick_loop_ends_when_nobody_listens() {
    assert!(keeps_ticking(WakeOutcome::Sent));
    assert!(keeps_ticking(WakeOutcome::Full));
    assert!(!keeps_ticking(WakeOutcome::Closed));
    assert_eq!(InGameState, InGameState::default());
    assert_eq!(InConfigState, InConfigState::default());
    assert_eq!(ClientIntention::Status.id(), 1);
    assert_eq!(ClientIntention::Login.id(), 2);
}

#[test]
fn client_information_is_sent_once_logged_in() {
    let mut current = ClientInformation::default();
    assert_eq!(current.view_distance, 8);
    assert_eq!(current.language, "en_us");
    let wanted = ClientInformation {
        language: "de_de".to_string(),
        view_distance: 2,
        chat_visibility: ChatVisibility::Hidden,
        chat_colors: false,
        model_customisation: 1,
        main_hand: HumanoidArm::Left,
        text_filtering_enabled: true,
        allows_listing: true,
    };
    assert_eq!(set_client_information(&mut current, wanted.clone(), false), None);
    assert_eq!(current, wanted);
    let mut current = ClientInformation::default();
    let sent = set_client_information(&mut current, wanted.clone(), true);
    assert_eq!(sent, Some(ServerboundClientInformation { information: wanted.clone() }));
    assert_eq!(current, wanted);
    assert_eq!(
        packet_payload(&sent.unwrap()).unwrap(),
        vec![0x0c, 5, b'd', b'e', b'_', b'd', b'e', 2, 2, 0, 1, 0, 1, 1]
    );
}

#[test]
fn tab_list_finds_players_by_name() {
    let player = |uuid: u128, name: &str| PlayerInfo {
        profile: GameProfile::new(uuid, name.to_string()),
        latency: 0,
    };
    let list = TabList { players: vec![player(1, "a"), player(2, "b"), player(3, "a")] };
    assert_eq!(list.player_uuid_by_username("a"), Some(1));
    assert_eq!(list.player_uuid_by_username("b"), Some(2));
    assert_eq!(list.player_uuid_by_username("c"), None);
}

#[test]
fn protocol_phases_follow_each_other() {
    let handshake = ConnectionProtocol::Handshake;
    let login = handshake.next(ProtocolEvent::IntentionSent).unwrap();
    assert_eq!(login, ConnectionProtocol::Login);
    let configuration = login.next(ProtocolEvent::LoginAcknowledged).unwrap();
    assert_eq!(configuration, ConnectionProtocol::Configuration);
    let game = configuration.next(ProtocolEvent::ConfigurationFinished).unwrap();
    assert_eq!(game, ConnectionProtocol::Game);
    assert_eq!(game.next(ProtocolEvent::ConfigurationStarted), Some(configuration));
    assert_eq!(login.next(ProtocolEvent::ConfigurationFinished), None);
    assert_eq!(game.next(ProtocolEvent::LoginAcknowledged), None);
    assert_eq!(handshake.next(ProtocolEvent::ConfigurationStarted), None);
}

#[test]
fn inbound_errors_and_movement() {
    assert_eq!(react_to(InboundError::Transport, false), ErrorReaction::CloseConnection);
    assert_eq!(react_to(InboundError::Decode, false), ErrorReaction::LogAndContinue);
    assert_eq!(react_to(InboundError::Decode, true), ErrorReaction::Panic);
    assert_eq!(react_to(InboundError::Handler, true), ErrorReaction::Disconnect);
    assert_eq!(movement_to_send(true, true, false, 3), (Some(MovementPacket::PosRot), 0));
    assert_eq!(movement_to_send(true, false, true, 3), (Some(MovementPacket::Pos), 0));
    assert_eq!(movement_to_send(false, true, false, 3), (Some(MovementPacket::Rot), 4));
    assert_eq!(movement_to_send(false, false, true, 3), (Some(MovementPacket::OnGround), 4));
    assert_eq!(movement_to_send(false, false, false, 19), (None, 20));
    assert_eq!(movement_to_send(false, false, false, 20), (Some(MovementPacket::Pos), 0));
}

#[test]
fn configuration_and_game_packets_are_handled() {
    let configuration = ConnectionProtocol::Configuration;
    let game = ConnectionProtocol::Game;
    assert_eq!(
        on_config_packet(configuration, ConfigPacket::KeepAlive { id: 5 }),
        (
            configuration,
            vec![ConnectionAction::SendConfig(ServerboundConfigPacket::KeepAlive { id: 5 })]
        )
    );
    assert_eq!(
        on_config_packet(configuration, ConfigPacket::FinishConfiguration),
        (game, vec![ConnectionAction::SendConfig(ServerboundConfigPacket::FinishConfiguration)])
    );
    assert_eq!(
        on_config_packet(configuration, ConfigPacket::Disconnect { reason: "x".to_string() }),
        (configuration, vec![ConnectionAction::Disconnect { reason: "x".to_string() }])
    );
    assert_eq!(on_config_packet(game, ConfigPacket::FinishConfiguration), (game, vec![]));
    assert_eq!(
        on_game_packet(game, GamePacket::KeepAlive(ClientboundKeepAlive { id: 9 })),
        (
            game,
            vec![ConnectionAction::SendGame(ServerboundGamePacket::KeepAlive(
                ServerboundKeepAlive { id: 9 }
            ))]
        )
    );
    assert_eq!(
        on_game_packet(game, GamePacket::StartConfiguration),
        (
            configuration,
            vec![ConnectionAction::SendGame(ServerboundGamePacket::ConfigurationAcknowledged)]
        )
    );
    assert_eq!(
        on_game_packet(game, GamePacket::ChunkBatchStart),
        (game, vec![ConnectionAction::StartBatch])
    );
    let finished = |batch_size: i32| {
        on_game_packet(
            game,
            GamePacket::ChunkBatchFinished(ClientboundChunkBatchFinished { batch_size }),
        )
        .1
    };
    assert_eq!(finished(12), vec![ConnectionAction::FinishBatch { batch_size: 12 }]);
    assert_eq!(finished(-1), vec![ConnectionAction::FinishBatch { batch_size: 0 }]);
    assert_eq!(on_game_packet(configuration, GamePacket::ChunkBatchStart), (configuration, vec![]));
}

#[test]
fn configuration_and_game_tables() {
    let packets = vec![
        ConfigPacket::Disconnect { reason: "bye".to_string() },
        ConfigPacket::FinishConfiguration,
        ConfigPacket::KeepAlive { id: 77 },
    ];
    for packet in packets {
        let bytes = packet_payload(&packet).unwrap();
        assert_eq!(read_config_packet(&bytes), Ok(packet));
    }
    assert_eq!(read_config_packet(&[1]), Err(ReadError::UnexpectedPacket));
    assert_eq!(read_config_packet(&[3, 0]), Err(ReadError::Malformed));
    assert_eq!(
        packet_payload(&ServerboundConfigPacket::KeepAlive { id: 1 }).unwrap(),
        vec![4, 0, 0, 0, 0, 0, 0, 0, 1]
    );
    assert_eq!(packet_payload(&ServerboundConfigPacket::FinishConfiguration).unwrap(), vec![3]);
    let border = ClientboundInitializeBorderPacket {
        new_center_x: 1,
        new_center_z: 2,
        old_size: 3,
        new_size: 4,
        lerp_time: 5,
        new_absolute_max_size: 6,
        warning_blocks: 7,
        warning_time: 8,
    };
    let packets = vec![
        GamePacket::ChunkBatchFinished(ClientboundChunkBatchFinished { batch_size: 64 }),
        GamePacket::ChunkBatchStart,
        GamePacket::Disconnect { reason: "bye".to_string() },
        GamePacket::InitializeBorder(border),
        GamePacket::KeepAlive(ClientboundKeepAlive { id: 1 << 40 }),
        GamePacket::StartConfiguration,
    ];
    for packet in packets {
        let bytes = packet_payload(&packet).unwrap();
        assert_eq!(read_game_packet(&bytes), Ok(packet));
    }
    assert_eq!(read_game_packet(&[0x0d]), Ok(GamePacket::ChunkBatchStart));
    assert_eq!(read_game_packet(&[0x0e]), Err(ReadError::UnexpectedPacket));
    assert_eq!(read_game_packet(&[0x27, 1, 2]), Err(ReadError::ShortRead));
    let sent = vec![
        ServerboundGamePacket::ChunkBatchReceived(ServerboundChunkBatchReceivedPacket {
            desired_chunks_per_tick: 7,
        }),
        ServerboundGamePacket::ClientInformation(ServerboundClientInformation {
            information: ClientInformation::default(),
        }),
        ServerboundGamePacket::ConfigurationAcknowledged,
        ServerboundGamePacket::KeepAlive(ServerboundKeepAlive { id: 3 }),
    ];
    for (packet, id) in sent.into_iter().zip([0x0a, 0x0c, 0x0e, 0x1a]) {
        let bytes = packet_payload(&packet).unwrap();
        assert_eq!(bytes[0], id);
        let mut reader = ByteReader::new(&bytes[1..]);
        assert_eq!(ServerboundGamePacket::read(id as i32, &mut reader), Ok(packet));
        assert_eq!(reader.remaining_len(), 0);
    }
}
