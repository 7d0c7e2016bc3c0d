//! The client's side of a connection: the protocol states and the rules
//! by which the login goes from one to the next.

use crate::buf::ReadError;
use crate::game_profile::GameProfile;
use crate::packets::config::{ConfigPacket, ServerboundConfigPacket};
use crate::packets::game::{
    ClientboundInitializeBorderPacket, GamePacket, ServerboundGamePacket, ServerboundKeepAlive,
};
use crate::packets::login::{ClientboundHello, LoginPacket};
use crate::packets::serverbound::{
    ClientIntention, ServerboundIntention, ServerboundLoginPacket,
};
use vstd::prelude::*;
use vstd::string::StringExecFns;

verus! {

/// The version of the protocol that the client speaks.
pub const PROTOCOL_VERSION: i32 = 769;

/// The milliseconds between two game ticks.
pub const TICK_MILLIS: u64 = 50;

/// The most game ticks that are made up for after a stall.
pub const MAX_CATCH_UP_TICKS: u64 = 10;

/// The phase of the protocol that a connection is in.
#[derive(Clone, Copy, Debug, PartialEq, Eq, Structural)]
pub enum ConnectionProtocol {
    Handshake,
    Login,
    Configuration,
    Game,
}

/// Why the session server refused to vouch for the client.
#[derive(Clone, Copy, Debug, PartialEq, Eq, Structural)]
pub enum ClientSessionServerError {
    /// The session is no longer valid; a fresh access token may help.
    InvalidSession,
    /// The operation is forbidden; a fresh access token may help.
    ForbiddenOperation,
    /// Anything else; trying again does not help.
    Other,
}

/// Why joining a server failed.
#[derive(Clone, Debug, PartialEq, Eq)]
pub enum JoinError {
    /// The host name could not be resolved.
    Resolver,
    /// The connection could not be made.
    Connection,
    /// A packet could not be read.
    ReadPacket(ReadError),
    /// The socket failed after the connection was made.
    Io,
    /// The session server refused, and a fresh access token does not help.
    SessionServer(ClientSessionServerError),
    /// The address given is no server address.
    InvalidAddress,
    /// The session server refused again after the access token was
    /// refreshed, or the token could not be refreshed, or the account has
    /// an access token and no UUID to go with it.
    Auth,
    /// The server closed the connection and gave a reason.
    Disconnect { reason: String },
}

/// What the login needs to know of the account that joins.
#[derive(Clone, Debug, PartialEq, Eq)]
pub struct Account {
    pub username: String,
    pub uuid: Option<u128>,
    /// Whether the account has an access token, and so has to be vouched
    /// for by the session server.
    pub has_access_token: bool,
}

/// What encrypting the server's challenge gave: the shared secret, and the
/// secret and the challenge as encrypted for the server.
#[derive(Clone, Debug, PartialEq, Eq)]
pub struct EncryptResult {
    pub secret_key: [u8; 16],
    pub encrypted_public_key: Vec<u8>,
    pub encrypted_challenge: Vec<u8>,
}

/// Where the login stands.
#[derive(Clone, Debug, PartialEq, Eq)]
pub enum LoginPhase {
    /// The next packet of the server is awaited.
    AwaitingPacket,
    /// The server's challenge is being encrypted.
    Encrypting,
    /// The session server is being asked, for the `attempts`-th time, to
    /// vouch for the client.
    Authenticating { attempts: u32, encrypted: EncryptResult },
    /// The access token is being refreshed after the `attempts`-th refusal
    /// of the session server.
    Refreshing { attempts: u32, encrypted: EncryptResult },
    /// The server accepted the login.
    Finished,
    /// The login failed.
    Failed,
}

/// The state of a login.
#[derive(Clone, Debug, PartialEq, Eq)]
pub struct LoginState {
    pub protocol: ConnectionProtocol,
    pub phase: LoginPhase,
    pub account: Account,
    /// Whether a custom query of the server is answered with an empty
    /// answer; unset where someone else answers them.
    pub answer_custom_queries: bool,
    /// The compression threshold, once the server has set one.
    pub compression_threshold: Option<i32>,
    /// The shared secret, once encryption is on.
    pub encryption_key: Option<[u8; 16]>,
    /// The profile, once the server has accepted the login.
    pub profile: Option<GameProfile>,
}

/// What happened, for the login to react to.
#[derive(Clone, Debug, PartialEq, Eq)]
pub enum LoginEvent {
    /// The server sent a packet.
    Packet(LoginPacket),
    /// The challenge was encrypted.
    Encrypted(EncryptResult),
    /// The challenge could not be encrypted.
    EncryptFailed,
    /// The session server vouches for the client.
    Authenticated,
    /// The session server refused.
    AuthenticationFailed(ClientSessionServerError),
    /// The access token was refreshed.
    Refreshed,
    /// The access token could not be refreshed.
    RefreshFailed,
}

/// What is to be done next.
#[derive(Clone, Debug, PartialEq, Eq)]
pub enum LoginAction {
    /// Send the first packet of the connection.
    SendIntention(ServerboundIntention),
    /// Send a packet of the login state.
    Send(ServerboundLoginPacket),
    /// Encrypt the challenge of this packet and report `Encrypted` or
    /// `EncryptFailed`.
    Encrypt(ClientboundHello),
    /// Ask the session server to vouch for the account with this UUID and
    /// this shared secret, and report `Authenticated` or
    /// `AuthenticationFailed`.
    Authenticate { uuid: u128, secret_key: [u8; 16] },
    /// Refresh the account's access token and report `Refreshed` or
    /// `RefreshFailed`.
    Refresh,
    /// Encrypt and decrypt all that follows with this key.
    SetEncryptionKey([u8; 16]),
    /// Frame all that follows under this compression threshold.
    SetCompressionThreshold(i32),
    /// Give up with this error.
    Fail(JoinError),
}

/// Whether a refusal of the session server may be cured by a fresh access
/// token.
pub open spec fn spec_is_curable(error: ClientSessionServerError) -> bool {
    error == ClientSessionServerError::InvalidSession || error
        == ClientSessionServerError::ForbiddenOperation
}

/// The state and the actions once the session server has vouched for the
/// client, or did not need to: the key goes to the server, and encryption
/// is on from then.
pub open spec fn spec_send_key(state: LoginState, encrypted: EncryptResult) -> (
    LoginState,
    Seq<LoginAction>,
) {
    (
        LoginState {
            phase: LoginPhase::AwaitingPacket,
            encryption_key: Some(encrypted.secret_key),
            ..state
        },
        seq![
            LoginAction::Send(
                ServerboundLoginPacket::Key {
                    key_bytes: encrypted.encrypted_public_key,
                    encrypted_challenge: encrypted.encrypted_challenge,
                },
            ),
            LoginAction::SetEncryptionKey(encrypted.secret_key),
        ],
    )
}

/// The state and the actions of a login that gives up with `error`.
pub open spec fn spec_fail(state: LoginState, error: JoinError) -> (LoginState, Seq<LoginAction>) {
    (LoginState { phase: LoginPhase::Failed, ..state }, seq![LoginAction::Fail(error)])
}

/// How the login reacts to a packet of the server while it awaits one.
pub open spec fn spec_on_packet(state: LoginState, packet: LoginPacket) -> (
    LoginState,
    Seq<LoginAction>,
) {
    match packet {
        LoginPacket::Hello(p) => (
            LoginState { phase: LoginPhase::Encrypting, ..state },
            seq![LoginAction::Encrypt(p)],
        ),
        LoginPacket::LoginCompression(p) => (
            LoginState { compression_threshold: Some(p.compression_threshold), ..state },
            seq![LoginAction::SetCompressionThreshold(p.compression_threshold)],
        ),
        LoginPacket::LoginFinished(p) => (
            LoginState {
                protocol: ConnectionProtocol::Configuration,
                phase: LoginPhase::Finished,
                profile: Some(p.game_profile),
                ..state
            },
            seq![LoginAction::Send(ServerboundLoginPacket::LoginAcknowledged)],
        ),
        LoginPacket::LoginDisconnect(p) => spec_fail(
            state,
            JoinError::Disconnect { reason: p.reason },
        ),
        LoginPacket::CustomQuery(p) => (
            state,
            if state.answer_custom_queries {
                seq![
                    LoginAction::Send(
                        ServerboundLoginPacket::CustomQueryAnswer {
                            transaction_id: p.transaction_id,
                            data: None,
                        },
                    ),
                ]
            } else {
                Seq::empty()
            },
        ),
        LoginPacket::CookieRequest(p) => (
            state,
            seq![
                LoginAction::Send(
                    ServerboundLoginPacket::CookieResponse { key: p.key, payload: None },
                ),
            ],
        ),
    }
}

/// How the login reacts to an event: the state after it, and what is to be
/// done. An event that the phase does not wait for changes nothing.
///
/// While a packet is awaited, the server's packets are handled as
/// `spec_on_packet` says. Once the challenge is encrypted, an account with
/// an access token is vouched for by the session server, and one without
/// sends the key at once. A first refusal of the session server that a
/// fresh token may cure is followed by a refresh and a second attempt; any
/// other first refusal ends the login with the session server's error; a
/// second refusal, and a refresh that fails, end it with `Auth`.
pub open spec fn spec_step(state: LoginState, event: LoginEvent) -> (LoginState, Seq<LoginAction>) {
    match (state.phase, event) {
        (LoginPhase::AwaitingPacket, LoginEvent::Packet(packet)) => spec_on_packet(state, packet),
        (LoginPhase::Encrypting, LoginEvent::Encrypted(encrypted)) => {
            if state.account.has_access_token {
                match state.account.uuid {
                    Some(uuid) => (
                        LoginState {
                            phase: LoginPhase::Authenticating { attempts: 1, encrypted },
                            ..state
                        },
                        seq![LoginAction::Authenticate { uuid, secret_key: encrypted.secret_key }],
                    ),
                    None => spec_fail(state, JoinError::Auth),
                }
            } else {
                spec_send_key(state, encrypted)
            }
        },
        (LoginPhase::Encrypting, LoginEvent::EncryptFailed) => (
            LoginState { phase: LoginPhase::AwaitingPacket, ..state },
            Seq::empty(),
        ),
        (LoginPhase::Authenticating { attempts, encrypted }, LoginEvent::Authenticated) => {
            spec_send_key(state, encrypted)
        },
        (
            LoginPhase::Authenticating { attempts, encrypted },
            LoginEvent::AuthenticationFailed(error),
        ) => {
            if attempts >= 2 {
                spec_fail(state, JoinError::Auth)
            } else if spec_is_curable(error) {
                (
                    LoginState { phase: LoginPhase::Refreshing { attempts, encrypted }, ..state },
                    seq![LoginAction::Refresh],
                )
            } else {
                spec_fail(state, JoinError::SessionServer(error))
            }
        },
        (LoginPhase::Refreshing { attempts, encrypted }, LoginEvent::Refreshed) => {
            match state.account.uuid {
                Some(uuid) => (
                    LoginState {
                        phase: LoginPhase::Authenticating {
                            attempts: if attempts < u32::MAX {
                                (attempts + 1) as u32
                            } else {
                                attempts
                            },
                            encrypted,
                        },
                        ..state
                    },
                    seq![LoginAction::Authenticate { uuid, secret_key: encrypted.secret_key }],
                ),
                None => spec_fail(state, JoinError::Auth),
            }
        },
        (LoginPhase::Refreshing { attempts, encrypted }, LoginEvent::RefreshFailed) => spec_fail(
            state,
            JoinError::Auth,
        ),
        _ => (state, Seq::empty()),
    }
}

/// The state and the actions that a login starts with: the client
/// announces that it logs in, and says who it is.
pub open spec fn spec_begin(
    account: Account,
    hostname: String,
    port: u16,
    name: String,
) -> (LoginState, Seq<LoginAction>) {
    (
        LoginState {
            protocol: ConnectionProtocol::Login,
            phase: LoginPhase::AwaitingPacket,
            account,
            answer_custom_queries: true,
            compression_threshold: None,
            encryption_key: None,
            profile: None,
        },
        seq![
            LoginAction::SendIntention(
                ServerboundIntention {
                    protocol_version: PROTOCOL_VERSION,
                    hostname,
                    port,
                    intention: ClientIntention::Login,
                },
            ),
            LoginAction::Send(
                ServerboundLoginPacket::Hello {
                    name,
                    profile_id: match account.uuid {
                        Some(uuid) => uuid,
                        None => 0,
                    },
                },
            ),
        ],
    )
}

/// Whether the state hangs together: the connection is in the login phase
/// until the server has accepted the login, and in the configuration phase
/// with a profile from then on.
pub open spec fn consistent(state: LoginState) -> bool {
    if state.phase is Finished {
        state.protocol == ConnectionProtocol::Configuration && state.profile is Some
    } else {
        state.protocol == ConnectionProtocol::Login && state.profile is None
    }
}

impl ClientSessionServerError {
    /// Whether the refusal may be cured by a fresh access token.
    pub fn is_curable(self) -> (b: bool)
        ensures
            b == spec_is_curable(self),
    {
        match self {
            ClientSessionServerError::InvalidSession => true,
            ClientSessionServerError::ForbiddenOperation => true,
            ClientSessionServerError::Other => false,
        }
    }
}

impl LoginState {
    /// Starts the login of `account` at the server named `hostname`: the
    /// state to go on from, and the two packets to send first.
    pub fn begin(account: Account, hostname: String, port: u16) -> (r: (
        LoginState,
        Vec<LoginAction>,
    ))
        ensures
            (r.0, r.1@) == spec_begin(account, hostname, port, account.username),
            consistent(r.0),
    {
        let name = account.username.clone();
        let profile_id = match account.uuid {
            Some(uuid) => uuid,
            None => 0,
        };
        let mut actions: Vec<LoginAction> = Vec::new();
        actions.push(
            LoginAction::SendIntention(
                ServerboundIntention {
                    protocol_version: PROTOCOL_VERSION,
                    hostname,
                    port,
                    intention: ClientIntention::Login,
                },
            ),
        );
        actions.push(LoginAction::Send(ServerboundLoginPacket::Hello { name, profile_id }));
        let state = LoginState {
            protocol: ConnectionProtocol::Login,
            phase: LoginPhase::AwaitingPacket,
            account,
            answer_custom_queries: true,
            compression_threshold: None,
            encryption_key: None,
            profile: None,
        };
        proof {
            assert(actions@ =~= spec_begin(account, hostname, port, account.username).1);
        }
        (state, actions)
    }

    /// Whether the login awaits a packet of the server.
    pub fn wants_packet(&self) -> (b: bool)
        ensures
            b == (self.phase is AwaitingPacket),
    {
        match self.phase {
            LoginPhase::AwaitingPacket => true,
            _ => false,
        }
    }

    /// Whether the login is over, one way or the other.
    pub fn is_over(&self) -> (b: bool)
        ensures
            b == (self.phase is Finished || self.phase is Failed),
    {
        match self.phase {
            LoginPhase::Finished => true,
            LoginPhase::Failed => true,
            _ => false,
        }
    }

    /// The state and the actions once the key can go to the server.
    fn send_key(self, encrypted: EncryptResult) -> (r: (LoginState, Vec<LoginAction>))
        ensures
            (r.0, r.1@) == spec_send_key(self, encrypted),
    {
        let EncryptResult { secret_key, encrypted_public_key, encrypted_challenge } = encrypted;
        let mut actions: Vec<LoginAction> = Vec::new();
        actions.push(
            LoginAction::Send(
                ServerboundLoginPacket::Key {
                    key_bytes: encrypted_public_key,
                    encrypted_challenge,
                },
            ),
        );
        actions.push(LoginAction::SetEncryptionKey(secret_key));
        let LoginState {
            protocol,
            phase,
            account,
            answer_custom_queries,
            compression_threshold,
            encryption_key,
            profile,
        } = self;
        let state = LoginState {
            protocol,
            phase: LoginPhase::AwaitingPacket,
            account,
            answer_custom_queries,
            compression_threshold,
            encryption_key: Some(secret_key),
            profile,
        };
        proof {
            assert(actions@ =~= spec_send_key(self, encrypted).1);
        }
        (state, actions)
    }

    /// The state and the actions of a login that gives up with `error`.
    fn fail(self, error: JoinError) -> (r: (LoginState, Vec<LoginAction>))
        ensures
            (r.0, r.1@) == spec_fail(self, error),
    {
        let mut actions: Vec<LoginAction> = Vec::new();
        actions.push(LoginAction::Fail(error));
        let mut state = self;
        state.phase = LoginPhase::Failed;
        proof {
            assert(actions@ =~= spec_fail(self, error).1);
        }
        (state, actions)
    }

    /// Reacts to a packet of the server while one is awaited.
    fn on_packet(self, packet: LoginPacket) -> (r: (LoginState, Vec<LoginAction>))
        ensures
            (r.0, r.1@) == spec_on_packet(self, packet),
    {
        let mut actions: Vec<LoginAction> = Vec::new();
        let mut state = self;
        match packet {
            LoginPacket::Hello(p) => {
                state.phase = LoginPhase::Encrypting;
                actions.push(LoginAction::Encrypt(p));
            },
            LoginPacket::LoginCompression(p) => {
                state.compression_threshold = Some(p.compression_threshold);
                actions.push(LoginAction::SetCompressionThreshold(p.compression_threshold));
            },
            LoginPacket::LoginFinished(p) => {
                state.protocol = ConnectionProtocol::Configuration;
                state.phase = LoginPhase::Finished;
                state.profile = Some(p.game_profile);
                actions.push(LoginAction::Send(ServerboundLoginPacket::LoginAcknowledged));
            },
            LoginPacket::LoginDisconnect(p) => {
                return state.fail(JoinError::Disconnect { reason: p.reason });
            },
            LoginPacket::CustomQuery(p) => {
                if state.answer_custom_queries {
                    actions.push(
                        LoginAction::Send(
                            ServerboundLoginPacket::CustomQueryAnswer {
                                transaction_id: p.transaction_id,
                                data: None,
                            },
                        ),
                    );
                }
            },
            LoginPacket::CookieRequest(p) => {
                actions.push(
                    LoginAction::Send(
                        ServerboundLoginPacket::CookieResponse { key: p.key, payload: None },
                    ),
                );
            },
        }
        proof {
            assert(actions@ =~= spec_on_packet(self, packet).1);
        }
        (state, actions)
    }

    /// Reacts to an event: gives the state after it and what is to be done,
    /// in the order in which it is to be done.
    pub fn step(self, event: LoginEvent) -> (r: (LoginState, Vec<LoginAction>))
        ensures
            (r.0, r.1@) == spec_step(self, event),
            consistent(self) ==> consistent(r.0),
    {
        let LoginState {
            protocol,
            phase,
            account,
            answer_custom_queries,
            compression_threshold,
            encryption_key,
            profile,
        } = self;
        let uuid = account.uuid;
        let has_access_token = account.has_access_token;
        let state = LoginState {
            protocol,
            phase: LoginPhase::AwaitingPacket,
            account,
            answer_custom_queries,
            compression_threshold,
            encryption_key,
            profile,
        };
        match (phase, event) {
            (LoginPhase::AwaitingPacket, LoginEvent::Packet(packet)) => state.on_packet(packet),
            (LoginPhase::Encrypting, LoginEvent::Encrypted(encrypted)) => {
                if has_access_token {
                    match uuid {
                        Some(uuid) => {
                            let mut actions: Vec<LoginAction> = Vec::new();
                            actions.push(
                                LoginAction::Authenticate {
                                    uuid,
                                    secret_key: encrypted.secret_key,
                                },
                            );
                            let mut next = state;
                            next.phase = LoginPhase::Authenticating { attempts: 1, encrypted };
                            proof {
                                assert(actions@ =~= spec_step(self, event).1);
                            }
                            (next, actions)
                        },
                        None => {
                            let mut back = state;
                            back.phase = LoginPhase::Encrypting;
                            back.fail(JoinError::Auth)
                        },
                    }
                } else {
                    let mut back = state;
                    back.phase = LoginPhase::Encrypting;
                    back.send_key(encrypted)
                }
            },
            (LoginPhase::Encrypting, LoginEvent::EncryptFailed) => (state, Vec::new()),
            (LoginPhase::Authenticating { attempts, encrypted }, LoginEvent::Authenticated) => {
                let ghost kept = encrypted;
                let mut back = state;
                proof {
                    assert(spec_send_key(self, kept) == spec_send_key(back, kept));
                }
                back.send_key(encrypted)
            },
            (
                LoginPhase::Authenticating { attempts, encrypted },
                LoginEvent::AuthenticationFailed(error),
            ) => {
                if attempts >= 2 {
                    let mut back = state;
                    back.phase = LoginPhase::Authenticating { attempts, encrypted };
                    back.fail(JoinError::Auth)
                } else if error.is_curable() {
                    let mut actions: Vec<LoginAction> = Vec::new();
                    actions.push(LoginAction::Refresh);
                    let mut next = state;
                    next.phase = LoginPhase::Refreshing { attempts, encrypted };
                    proof {
                        assert(actions@ =~= spec_step(self, event).1);
                    }
                    (next, actions)
                } else {
                    let mut back = state;
                    back.phase = LoginPhase::Authenticating { attempts, encrypted };
                    back.fail(JoinError::SessionServer(error))
                }
            },
            (LoginPhase::Refreshing { attempts, encrypted }, LoginEvent::Refreshed) => {
                match uuid {
                    Some(uuid) => {
                        let mut actions: Vec<LoginAction> = Vec::new();
                        actions.push(
                            LoginAction::Authenticate { uuid, secret_key: encrypted.secret_key },
                        );
                        let mut next = state;
                        next.phase = LoginPhase::Authenticating {
                            attempts: if attempts < u32::MAX {
                                attempts + 1
                            } else {
                                attempts
                            },
                            encrypted,
                        };
                        proof {
                            assert(actions@ =~= spec_step(self, event).1);
                        }
                        (next, actions)
                    },
                    None => {
                        let mut back = state;
                        back.phase = LoginPhase::Refreshing { attempts, encrypted };
                        back.fail(JoinError::Auth)
                    },
                }
            },
            (LoginPhase::Refreshing { attempts, encrypted }, LoginEvent::RefreshFailed) => {
                let mut back = state;
                back.phase = LoginPhase::Refreshing { attempts, encrypted };
                back.fail(JoinError::Auth)
            },
            (phase, _) => {
                let mut back = state;
                back.phase = phase;
                (back, Vec::new())
            },
        }
    }
}

/// When the server accepts the login, the connection is in the
/// configuration phase and the profile is the one that the server named;
/// the client acknowledges, and does nothing else.
pub proof fn lemma_login_finished(state: LoginState, profile: GameProfile)
    requires
        state.phase is AwaitingPacket,
    ensures
        ({
            let (after, actions) = spec_step(
                state,
                LoginEvent::Packet(
                    LoginPacket::LoginFinished(
                        crate::packets::login::ClientboundLoginFinished { game_profile: profile },
                    ),
                ),
            );
            &&& after.protocol == ConnectionProtocol::Configuration
            &&& after.profile == Some(profile)
            &&& after.phase is Finished
            &&& actions == seq![LoginAction::Send(ServerboundLoginPacket::LoginAcknowledged)]
        }),
{
}

/// Whatever happens, a state that hangs together stays so: the connection
/// is in the configuration phase exactly when the login is finished, and
/// then the profile is there.
pub proof fn lemma_step_keeps_consistent(state: LoginState, event: LoginEvent)
    requires
        consistent(state),
    ensures
        consistent(spec_step(state, event).0),
        spec_step(state, event).0.phase is Finished ==> spec_step(state, event).0.protocol
            == ConnectionProtocol::Configuration && spec_step(state, event).0.profile is Some,
{
}

/// A first refusal of the session server that a fresh token may cure is
/// followed by one refresh and a second attempt; when that attempt
/// succeeds, the key goes to the server and encryption is on. A second
/// refusal ends the login with `Auth`, whatever the session server said.
pub proof fn lemma_authentication_is_retried_once(
    state: LoginState,
    encrypted: EncryptResult,
    error: ClientSessionServerError,
    later: ClientSessionServerError,
    uuid: u128,
)
    requires
        state.phase == (LoginPhase::Authenticating { attempts: 1, encrypted }),
        state.account.uuid == Some(uuid),
        spec_is_curable(error),
    ensures
        ({
            let (refreshing, first) = spec_step(state, LoginEvent::AuthenticationFailed(error));
            let (again, second) = spec_step(refreshing, LoginEvent::Refreshed);
            let (done, third) = spec_step(again, LoginEvent::Authenticated);
            let (failed, fourth) = spec_step(again, LoginEvent::AuthenticationFailed(later));
            &&& first == seq![LoginAction::Refresh]
            &&& second == seq![LoginAction::Authenticate { uuid, secret_key: encrypted.secret_key }]
            &&& again.phase == (LoginPhase::Authenticating { attempts: 2, encrypted })
            &&& (done, third) == spec_send_key(again, encrypted)
            &&& done.encryption_key == Some(encrypted.secret_key)
            &&& failed.phase is Failed
            &&& fourth == seq![LoginAction::Fail(JoinError::Auth)]
        }),
{
}

/// When the game tick clock last ticked, in nanoseconds of a steady clock.
#[derive(Clone, Copy, Debug, PartialEq, Eq, Structural)]
pub struct TickClock {
    pub last_tick: Option<u64>,
}

/// The nanoseconds between two game ticks.
pub open spec fn tick_nanos() -> int {
    TICK_MILLIS * 1_000_000
}

/// The clock after the schedule ran at `now`, and whether a game tick is
/// due. The first run ticks. After that a tick is due when more than a
/// tick's time has gone by since the last; the clock then moves on by one
/// tick's time, so that a stall is made up for by a burst of ticks, but by
/// ten at most: what is owed beyond that is dropped.
pub open spec fn spec_tick(clock: TickClock, now: u64) -> (TickClock, bool) {
    match clock.last_tick {
        None => (TickClock { last_tick: Some(now) }, true),
        Some(last) => if now - last > tick_nanos() {
            let moved = last + tick_nanos();
            let owed = MAX_CATCH_UP_TICKS * tick_nanos();
            (
                TickClock {
                    last_tick: Some(
                        if now - moved > owed {
                            (now - owed) as u64
                        } else {
                            moved as u64
                        },
                    ),
                },
                true,
            )
        } else {
            (clock, false)
        },
    }
}

impl TickClock {
    /// A clock that has not ticked yet.
    pub fn new() -> (r: TickClock)
        ensures
            r.last_tick is None,
    {
        TickClock { last_tick: None }
    }

    /// Tells whether a game tick is due now that the schedule runs at
    /// `now`, and moves the clock on.
    pub fn tick(&mut self, now: u64) -> (due: bool)
        ensures
            (*final(self), due) == spec_tick(*old(self), now),
    {
        let tick: u64 = TICK_MILLIS * 1_000_000;
        let owed: u64 = MAX_CATCH_UP_TICKS * tick;
        match self.last_tick {
            None => {
                self.last_tick = Some(now);
                true
            },
            Some(last) => {
                if now > last && now - last > tick {
                    let moved = last + tick;
                    if now - moved > owed {
                        self.last_tick = Some(now - owed);
                    } else {
                        self.last_tick = Some(moved);
                    }
                    true
                } else {
                    false
                }
            },
        }
    }
}

/// After the schedule ran, no more than ten ticks are owed beyond the one
/// that may be due at once; and the clock never runs ahead of the time or
/// back.
pub proof fn lemma_tick_bounds(clock: TickClock, now: u64)
    requires
        clock.last_tick matches Some(last) ==> last <= now,
    ensures
        spec_tick(clock, now).0.last_tick matches Some(after) && after <= now && now - after
            <= (MAX_CATCH_UP_TICKS + 1) * tick_nanos() && (clock.last_tick matches Some(last)
            ==> last <= after),
{
}

/// What became of an attempt to wake the schedule.
#[derive(Clone, Copy, Debug, PartialEq, Eq, Structural)]
pub enum WakeOutcome {
    /// The schedule was woken.
    Sent,
    /// The schedule had been woken already and not run yet.
    Full,
    /// Nobody listens any more.
    Closed,
}

/// Whether the tick loop goes on after an attempt to wake the schedule: it
/// ends when nobody listens any more, and only then.
pub fn keeps_ticking(outcome: WakeOutcome) -> (b: bool)
    ensures
        b == (outcome != WakeOutcome::Closed),
{
    match outcome {
        WakeOutcome::Closed => false,
        _ => true,
    }
}

/// Which chat messages the client wants to see.
#[derive(Clone, Copy, Debug, PartialEq, Eq, Structural)]
pub enum ChatVisibility {
    Full,
    System,
    Hidden,
}

/// The hand that the player uses most.
#[derive(Clone, Copy, Debug, PartialEq, Eq, Structural)]
pub enum HumanoidArm {
    Left,
    Right,
}

/// The options that the client tells the server of.
#[derive(Debug, PartialEq, Eq)]
pub struct ClientInformation {
    /// The language of the client, such as `en_us`.
    pub language: String,
    /// How many chunks around it the client wants to be sent.
    pub view_distance: u8,
    pub chat_visibility: ChatVisibility,
    /// Whether the client shows colors in chat.
    pub chat_colors: bool,
    /// The parts of the skin that are shown, one bit each.
    pub model_customisation: u8,
    pub main_hand: HumanoidArm,
    /// Whether the client filters text itself.
    pub text_filtering_enabled: bool,
    /// Whether the client may be shown in the server's list of players.
    pub allows_listing: bool,
}

impl Clone for ClientInformation {
    fn clone(&self) -> (r: Self)
        ensures
            r == *self,
    {
        ClientInformation {
            language: self.language.clone(),
            view_distance: self.view_distance,
            chat_visibility: self.chat_visibility,
            chat_colors: self.chat_colors,
            model_customisation: self.model_customisation,
            main_hand: self.main_hand,
            text_filtering_enabled: self.text_filtering_enabled,
            allows_listing: self.allows_listing,
        }
    }
}

impl Default for ClientInformation {
    /// The options of a client that was told nothing: American English, a
    /// view distance of 8, all chat with colors, the whole skin, the right
    /// hand, no filtering and no listing.
    fn default() -> (r: Self)
        ensures
            r.language@ == "en_us"@,
            r.view_distance == 8,
            r.chat_visibility == ChatVisibility::Full,
            r.chat_colors,
            r.model_customisation == 0x7f,
            r.main_hand == HumanoidArm::Right,
            !r.text_filtering_enabled,
            !r.allows_listing,
    {
        ClientInformation {
            language: String::from_str("en_us"),
            view_distance: 8,
            chat_visibility: ChatVisibility::Full,
            chat_colors: true,
            model_customisation: 0x7f,
            main_hand: HumanoidArm::Right,
            text_filtering_enabled: false,
            allows_listing: false,
        }
    }
}

/// The client tells the server its options.
#[derive(Clone, Debug, PartialEq, Eq)]
pub struct ServerboundClientInformation {
    pub information: ClientInformation,
}

/// Changes the client's options to `information`, and gives the packet
/// that tells the server of them where the client is logged in already;
/// before that, the options go out with the login.
pub fn set_client_information(
    current: &mut ClientInformation,
    information: ClientInformation,
    logged_in: bool,
) -> (r: Option<ServerboundClientInformation>)
    ensures
        *final(current) == information,
        r == if logged_in {
            Some(ServerboundClientInformation { information })
        } else {
            None
        },
{
    if logged_in {
        *current = information.clone();
        Some(ServerboundClientInformation { information })
    } else {
        *current = information;
        None
    }
}

/// What the tab list says of one player.
#[derive(Clone, Debug, PartialEq, Eq)]
pub struct PlayerInfo {
    pub profile: GameProfile,
    /// The player's ping in milliseconds.
    pub latency: i32,
}

/// The players that the server lists.
#[derive(Clone, Debug, PartialEq, Eq)]
pub struct TabList {
    pub players: Vec<PlayerInfo>,
}

/// The place in `players`, from `i` on, of the first player named `name`,
/// or the length of `players` where there is none.
pub open spec fn first_named(players: Seq<PlayerInfo>, name: Seq<char>, i: int) -> int
    decreases players.len() - i,
{
    if i < 0 || i >= players.len() || players[i].profile.name@ == name {
        i
    } else {
        first_named(players, name, i + 1)
    }
}

impl TabList {
    /// The UUID of the first player listed under the name `username`, if
    /// one is.
    pub fn player_uuid_by_username(&self, username: &str) -> (r: Option<u128>)
        ensures
            ({
                let i = first_named(self.players@, username@, 0);
                r == if 0 <= i < self.players@.len() {
                    Some(self.players@[i].profile.uuid)
                } else {
                    None
                }
            }),
    {
        let wanted = String::from_str(username);
        let mut i: usize = 0;
        while i < self.players.len()
            invariant
                i <= self.players.len(),
                wanted@ == username@,
                first_named(self.players@, username@, 0) == first_named(
                    self.players@,
                    username@,
                    i as int,
                ),
            decreases self.players.len() - i,
        {
            if self.players[i].profile.name == wanted {
                return Some(self.players[i].profile.uuid);
            }
            i = i + 1;
        }
        None
    }
}

/// What moves a connection from one phase to the next. Every move is
/// confirmed by the server: the client acknowledges what the server sent.
#[derive(Clone, Copy, Debug, PartialEq, Eq, Structural)]
pub enum ProtocolEvent {
    /// The client sent its intention to log in.
    IntentionSent,
    /// The server accepted the login and the client acknowledged.
    LoginAcknowledged,
    /// The server finished the configuration and the client acknowledged.
    ConfigurationFinished,
    /// The server asked for the configuration anew and the client
    /// acknowledged.
    ConfigurationStarted,
}

/// The place of a phase in the order of a connection's life.
pub open spec fn phase_rank(protocol: ConnectionProtocol) -> int {
    match protocol {
        ConnectionProtocol::Handshake => 0,
        ConnectionProtocol::Login => 1,
        ConnectionProtocol::Configuration => 2,
        ConnectionProtocol::Game => 3,
    }
}

/// The phase after `event`, or nothing where the event does not belong to
/// the phase.
pub open spec fn spec_next_protocol(protocol: ConnectionProtocol, event: ProtocolEvent) -> Option<
    ConnectionProtocol,
> {
    match (protocol, event) {
        (ConnectionProtocol::Handshake, ProtocolEvent::IntentionSent) => Some(
            ConnectionProtocol::Login,
        ),
        (ConnectionProtocol::Login, ProtocolEvent::LoginAcknowledged) => Some(
            ConnectionProtocol::Configuration,
        ),
        (ConnectionProtocol::Configuration, ProtocolEvent::ConfigurationFinished) => Some(
            ConnectionProtocol::Game,
        ),
        (ConnectionProtocol::Game, ProtocolEvent::ConfigurationStarted) => Some(
            ConnectionProtocol::Configuration,
        ),
        _ => None,
    }
}

impl ConnectionProtocol {
    /// The phase after `event`, or nothing where the event does not belong
    /// to this phase. A connection goes forward one phase at a time; the
    /// one way back is from the game to the configuration.
    pub fn next(self, event: ProtocolEvent) -> (r: Option<ConnectionProtocol>)
        ensures
            r == spec_next_protocol(self, event),
            r matches Some(after) ==> phase_rank(after) == phase_rank(self) + 1 || (self
                == ConnectionProtocol::Game && after == ConnectionProtocol::Configuration),
    {
        match (self, event) {
            (ConnectionProtocol::Handshake, ProtocolEvent::IntentionSent) => Some(
                ConnectionProtocol::Login,
            ),
            (ConnectionProtocol::Login, ProtocolEvent::LoginAcknowledged) => Some(
                ConnectionProtocol::Configuration,
            ),
            (ConnectionProtocol::Configuration, ProtocolEvent::ConfigurationFinished) => Some(
                ConnectionProtocol::Game,
            ),
            (ConnectionProtocol::Game, ProtocolEvent::ConfigurationStarted) => Some(
                ConnectionProtocol::Configuration,
            ),
            _ => None,
        }
    }
}

/// What is to be done about a packet of the configuration state or of the
/// game state.
#[derive(Clone, Debug, PartialEq, Eq)]
pub enum ConnectionAction {
    /// Send a packet of the configuration state.
    SendConfig(ServerboundConfigPacket),
    /// Send a packet of the game state.
    SendGame(ServerboundGamePacket),
    /// A batch of chunks begins.
    StartBatch,
    /// A batch of this many chunks has come.
    FinishBatch { batch_size: u32 },
    /// The world border is set up.
    SetBorder(ClientboundInitializeBorderPacket),
    /// The server closed the connection and gave a reason.
    Disconnect { reason: String },
}

/// How the client reacts to a packet of the configuration state: the phase
/// after it, and what is to be done. The server's keep-alive is answered
/// with its id; when the server has finished the configuration, the client
/// acknowledges and the game begins. Outside the configuration state the
/// packet changes nothing.
pub open spec fn spec_on_config_packet(protocol: ConnectionProtocol, packet: ConfigPacket) -> (
    ConnectionProtocol,
    Seq<ConnectionAction>,
) {
    if protocol != ConnectionProtocol::Configuration {
        (protocol, Seq::empty())
    } else {
        match packet {
            ConfigPacket::Disconnect { reason } => (
                protocol,
                seq![ConnectionAction::Disconnect { reason }],
            ),
            ConfigPacket::FinishConfiguration => (
                ConnectionProtocol::Game,
                seq![ConnectionAction::SendConfig(ServerboundConfigPacket::FinishConfiguration)],
            ),
            ConfigPacket::KeepAlive { id } => (
                protocol,
                seq![ConnectionAction::SendConfig(ServerboundConfigPacket::KeepAlive { id })],
            ),
        }
    }
}

/// The number of chunks that a batch size sent by the server stands for:
/// none where it is negative.
pub open spec fn spec_batch_size(sent: i32) -> u32 {
    if sent < 0 {
        0
    } else {
        sent as u32
    }
}

/// How the client reacts to a packet of the game state: the phase after
/// it, and what is to be done. The server's keep-alive is answered with
/// its id; when the server asks for the configuration anew, the client
/// acknowledges and is in the configuration state again. Outside the game
/// state the packet changes nothing.
pub open spec fn spec_on_game_packet(protocol: ConnectionProtocol, packet: GamePacket) -> (
    ConnectionProtocol,
    Seq<ConnectionAction>,
) {
    if protocol != ConnectionProtocol::Game {
        (protocol, Seq::empty())
    } else {
        match packet {
            GamePacket::ChunkBatchFinished(p) => (
                protocol,
                seq![ConnectionAction::FinishBatch { batch_size: spec_batch_size(p.batch_size) }],
            ),
            GamePacket::ChunkBatchStart => (protocol, seq![ConnectionAction::StartBatch]),
            GamePacket::Disconnect { reason } => (
                protocol,
                seq![ConnectionAction::Disconnect { reason }],
            ),
            GamePacket::InitializeBorder(p) => (protocol, seq![ConnectionAction::SetBorder(p)]),
            GamePacket::KeepAlive(p) => (
                protocol,
                seq![
                    ConnectionAction::SendGame(
                        ServerboundGamePacket::KeepAlive(ServerboundKeepAlive { id: p.id }),
                    ),
                ],
            ),
            GamePacket::StartConfiguration => (
                ConnectionProtocol::Configuration,
                seq![ConnectionAction::SendGame(ServerboundGamePacket::ConfigurationAcknowledged)],
            ),
        }
    }
}

/// Reacts to a packet of the configuration state.
pub fn on_config_packet(protocol: ConnectionProtocol, packet: ConfigPacket) -> (r: (
    ConnectionProtocol,
    Vec<ConnectionAction>,
))
    ensures
        (r.0, r.1@) == spec_on_config_packet(protocol, packet),
        r.0 != protocol ==> Some(r.0) == spec_next_protocol(
            protocol,
            ProtocolEvent::ConfigurationFinished,
        ),
{
    let mut actions: Vec<ConnectionAction> = Vec::new();
    match protocol {
        ConnectionProtocol::Configuration => {},
        _ => { return (protocol, actions); },
    }
    let mut next = protocol;
    match packet {
        ConfigPacket::Disconnect { reason } => {
            actions.push(ConnectionAction::Disconnect { reason });
        },
        ConfigPacket::FinishConfiguration => {
            next = ConnectionProtocol::Game;
            actions.push(ConnectionAction::SendConfig(ServerboundConfigPacket::FinishConfiguration));
        },
        ConfigPacket::KeepAlive { id } => {
            actions.push(ConnectionAction::SendConfig(ServerboundConfigPacket::KeepAlive { id }));
        },
    }
    proof {
        assert(actions@ =~= spec_on_config_packet(protocol, packet).1);
    }
    (next, actions)
}

/// Reacts to a packet of the game state.
pub fn on_game_packet(protocol: ConnectionProtocol, packet: GamePacket) -> (r: (
    ConnectionProtocol,
    Vec<ConnectionAction>,
))
    ensures
        (r.0, r.1@) == spec_on_game_packet(protocol, packet),
        r.0 != protocol ==> Some(r.0) == spec_next_protocol(
            protocol,
            ProtocolEvent::ConfigurationStarted,
        ),
{
    let mut actions: Vec<ConnectionAction> = Vec::new();
    match protocol {
        ConnectionProtocol::Game => {},
        _ => { return (protocol, actions); },
    }
    let mut next = protocol;
    match packet {
        GamePacket::ChunkBatchFinished(p) => {
            let batch_size: u32 = if p.batch_size < 0 {
                0
            } else {
                p.batch_size as u32
            };
            actions.push(ConnectionAction::FinishBatch { batch_size });
        },
        GamePacket::ChunkBatchStart => {
            actions.push(ConnectionAction::StartBatch);
        },
        GamePacket::Disconnect { reason } => {
            actions.push(ConnectionAction::Disconnect { reason });
        },
        GamePacket::InitializeBorder(p) => {
            actions.push(ConnectionAction::SetBorder(p));
        },
        GamePacket::KeepAlive(p) => {
            actions.push(
                ConnectionAction::SendGame(
                    ServerboundGamePacket::KeepAlive(ServerboundKeepAlive { id: p.id }),
                ),
            );
        },
        GamePacket::StartConfiguration => {
            next = ConnectionProtocol::Configuration;
            actions.push(
                ConnectionAction::SendGame(ServerboundGamePacket::ConfigurationAcknowledged),
            );
        },
    }
    proof {
        assert(actions@ =~= spec_on_game_packet(protocol, packet).1);
    }
    (next, actions)
}

/// Where an error of the inbound side came from.
#[derive(Clone, Copy, Debug, PartialEq, Eq, Structural)]
pub enum InboundError {
    /// The bytes could not be read as a frame, or the socket failed.
    Transport,
    /// A frame's bytes are no packet.
    Decode,
    /// A handler could not do what the packet asked.
    Handler,
}

/// What is done about an error of the inbound side.
#[derive(Clone, Copy, Debug, PartialEq, Eq, Structural)]
pub enum ErrorReaction {
    /// The connection is closed; the client is told without a reason.
    CloseConnection,
    /// The packet is logged and passed over.
    LogAndContinue,
    /// The program stops, so that the fault is seen.
    Panic,
    /// The client is disconnected.
    Disconnect,
}

/// What is done about an error of the inbound side: one of the transport
/// closes the connection; a packet that cannot be decoded is passed over,
/// or stops the program where decoding is `strict`; a handler's error
/// disconnects the client.
pub fn react_to(error: InboundError, strict: bool) -> (r: ErrorReaction)
    ensures
        r == match error {
            InboundError::Transport => ErrorReaction::CloseConnection,
            InboundError::Decode => if strict {
                ErrorReaction::Panic
            } else {
                ErrorReaction::LogAndContinue
            },
            InboundError::Handler => ErrorReaction::Disconnect,
        },
{
    match error {
        InboundError::Transport => ErrorReaction::CloseConnection,
        InboundError::Decode => {
            if strict {
                ErrorReaction::Panic
            } else {
                ErrorReaction::LogAndContinue
            }
        },
        InboundError::Handler => ErrorReaction::Disconnect,
    }
}

/// The most ticks that go by without the position being sent.
pub const POSITION_REMINDER_TICKS: u32 = 20;

/// The kinds of movement packet, from the one that carries most to the one
/// that carries least.
#[derive(Clone, Copy, Debug, PartialEq, Eq, Structural)]
pub enum MovementPacket {
    /// The position and the rotation.
    PosRot,
    /// The position.
    Pos,
    /// The rotation.
    Rot,
    /// Whether the player stands on the ground.
    OnGround,
}

/// The movement packet to send in a tick, and the ticks gone by since the
/// position was sent, counted after this tick. The position is due when
/// the player moved, and after twenty ticks without it in any case. The
/// packet is the least that carries what is due: nothing is sent where
/// nothing is.
pub open spec fn spec_movement(
    moved: bool,
    rotated: bool,
    ground_changed: bool,
    ticks_since_position: u32,
) -> (Option<MovementPacket>, u32) {
    let position_due = moved || ticks_since_position >= POSITION_REMINDER_TICKS;
    (
        if position_due && rotated {
            Some(MovementPacket::PosRot)
        } else if position_due {
            Some(MovementPacket::Pos)
        } else if rotated {
            Some(MovementPacket::Rot)
        } else if ground_changed {
            Some(MovementPacket::OnGround)
        } else {
            None
        },
        if position_due {
            0
        } else {
            (ticks_since_position + 1) as u32
        },
    )
}

/// Chooses the movement packet of a tick.
pub fn movement_to_send(
    moved: bool,
    rotated: bool,
    ground_changed: bool,
    ticks_since_position: u32,
) -> (r: (Option<MovementPacket>, u32))
    ensures
        r == spec_movement(moved, rotated, ground_changed, ticks_since_position),
        r.1 <= POSITION_REMINDER_TICKS,
{
    let position_due = moved || ticks_since_position >= POSITION_REMINDER_TICKS;
    let packet = if position_due && rotated {
        Some(MovementPacket::PosRot)
    } else if position_due {
        Some(MovementPacket::Pos)
    } else if rotated {
        Some(MovementPacket::Rot)
    } else if ground_changed {
        Some(MovementPacket::OnGround)
    } else {
        None
    };
    let ticks = if position_due {
        0
    } else {
        ticks_since_position + 1
    };
    (packet, ticks)
}

/// Marks a local player that is in the game state.
#[derive(Clone, Copy, Debug, Default, PartialEq, Eq)]
pub struct InGameState;

/// Marks a local player that is in the configuration state.
#[derive(Clone, Copy, Debug, Default, PartialEq, Eq)]
pub struct InConfigState;

} // verus!
