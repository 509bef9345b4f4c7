//! The transport channel set: one logical channel per message kind, each
//! with its delivery guarantee. The transport itself is an external
//! collaborator; this module fixes the channel numbering and the
//! quality-of-service table it must be configured with.

use vstd::prelude::*;

verus! {

/// Delivery guarantee of one logical channel.
#[derive(Clone, Copy, Debug, PartialEq, Eq, Structural)]
pub enum ChannelKind {
    /// Resend-on-loss, with the resend interval in milliseconds.
    Reliable { resend_ms: u64 },
    /// Fire-and-forget; `sequenced` drops out-of-order arrivals.
    Unreliable { sequenced: bool },
    /// Reliable and fragmented, for bulk payloads.
    Chunked,
}

/// One channel of the transport configuration.
#[derive(Clone, Copy, Debug, PartialEq, Eq, Structural)]
pub struct ChannelSettings {
    pub channel_id: u8,
    pub kind: ChannelKind,
}

/// Client-to-server channels.
#[derive(Clone, Copy, Debug, PartialEq, Eq, Structural)]
pub enum ClientChannel {
    Command,
    Input,
    Click,
}

/// Server-to-client channels.
#[derive(Clone, Copy, Debug, PartialEq, Eq, Structural)]
pub enum ServerChannel {
    Spawn,
    Despawn,
    Update,
    Load,
    ServerMessages,
    Tick,
    Test,
    ServerEvents,
}

/// The wire number of a client channel.
pub open spec fn client_channel_id(c: ClientChannel) -> u8 {
    match c {
        ClientChannel::Command => 0,
        ClientChannel::Input => 1,
        ClientChannel::Click => 2,
    }
}

/// The wire number of a server channel.
pub open spec fn server_channel_id(c: ServerChannel) -> u8 {
    match c {
        ServerChannel::Spawn => 0,
        ServerChannel::Despawn => 1,
        ServerChannel::Update => 2,
        ServerChannel::Load => 3,
        ServerChannel::ServerMessages => 4,
        ServerChannel::Tick => 5,
        ServerChannel::Test => 6,
        ServerChannel::ServerEvents => 7,
    }
}

impl core::convert::From<ClientChannel> for u8 {
    fn from(channel_id: ClientChannel) -> (r: u8) {
        match channel_id {
            ClientChannel::Command => 0,
            ClientChannel::Input => 1,
            ClientChannel::Click => 2,
        }
    }
}

impl vstd::std_specs::convert::FromSpecImpl<ClientChannel> for u8 {
    open spec fn obeys_from_spec() -> bool {
        true
    }

    open spec fn from_spec(v: ClientChannel) -> u8 {
        client_channel_id(v)
    }
}

impl core::convert::From<ServerChannel> for u8 {
    fn from(channel_id: ServerChannel) -> (r: u8) {
        match channel_id {
            ServerChannel::Spawn => 0,
            ServerChannel::Despawn => 1,
            ServerChannel::Update => 2,
            ServerChannel::Load => 3,
            ServerChannel::ServerMessages => 4,
            ServerChannel::Tick => 5,
            ServerChannel::Test => 6,
            ServerChannel::ServerEvents => 7,
        }
    }
}

impl vstd::std_specs::convert::FromSpecImpl<ServerChannel> for u8 {
    open spec fn obeys_from_spec() -> bool {
        true
    }

    open spec fn from_spec(v: ServerChannel) -> u8 {
        server_channel_id(v)
    }
}

/// How often the reliable channels resend unacknowledged messages.
pub const RESEND_MS: u64 = 200;

impl ClientChannel {
    /// The transport configuration of every client-to-server channel:
    /// commands and raw input are unreliable but sequenced, diagnostic
    /// clicks are plain unreliable.
    pub fn channels_config() -> (cfg: Vec<ChannelSettings>)
        ensures
            cfg@.len() == 3,
            cfg@[0] == (ChannelSettings {
                channel_id: client_channel_id(ClientChannel::Input),
                kind: ChannelKind::Unreliable { sequenced: true },
            }),
            cfg@[1] == (ChannelSettings {
                channel_id: client_channel_id(ClientChannel::Command),
                kind: ChannelKind::Unreliable { sequenced: true },
            }),
            cfg@[2] == (ChannelSettings {
                channel_id: client_channel_id(ClientChannel::Click),
                kind: ChannelKind::Unreliable { sequenced: false },
            }),
    {
        let mut cfg: Vec<ChannelSettings> = Vec::new();
        cfg.push(ChannelSettings {
            channel_id: 1,
            kind: ChannelKind::Unreliable { sequenced: true },
        });
        cfg.push(ChannelSettings {
            channel_id: 0,
            kind: ChannelKind::Unreliable { sequenced: true },
        });
        cfg.push(ChannelSettings {
            channel_id: 2,
            kind: ChannelKind::Unreliable { sequenced: false },
        });
        cfg
    }
}

impl ServerChannel {
    /// The transport configuration of every server-to-client channel:
    /// spawn/despawn and lifecycle notices are reliable, updates and ticks
    /// are unreliable but sequenced, bulk loads go over the chunked
    /// channel.
    pub fn channels_config() -> (cfg: Vec<ChannelSettings>)
        ensures
            cfg@.len() == 8,
            cfg@[0] == (ChannelSettings {
                channel_id: server_channel_id(ServerChannel::Spawn),
                kind: ChannelKind::Reliable { resend_ms: RESEND_MS },
            }),
            cfg@[1] == (ChannelSettings {
                channel_id: server_channel_id(ServerChannel::Despawn),
                kind: ChannelKind::Reliable { resend_ms: RESEND_MS },
            }),
            cfg@[2] == (ChannelSettings {
                channel_id: server_channel_id(ServerChannel::Update),
                kind: ChannelKind::Unreliable { sequenced: true },
            }),
            cfg@[3] == (ChannelSettings {
                channel_id: server_channel_id(ServerChannel::Load),
                kind: ChannelKind::Chunked,
            }),
            cfg@[4] == (ChannelSettings {
                channel_id: server_channel_id(ServerChannel::ServerMessages),
                kind: ChannelKind::Reliable { resend_ms: RESEND_MS },
            }),
            cfg@[5] == (ChannelSettings {
                channel_id: server_channel_id(ServerChannel::Tick),
                kind: ChannelKind::Unreliable { sequenced: true },
            }),
            cfg@[6] == (ChannelSettings {
                channel_id: server_channel_id(ServerChannel::Test),
                kind: ChannelKind::Reliable { resend_ms: RESEND_MS },
            }),
            cfg@[7] == (ChannelSettings {
                channel_id: server_channel_id(ServerChannel::ServerEvents),
                kind: ChannelKind::Reliable { resend_ms: RESEND_MS },
            }),
    {
        let mut cfg: Vec<ChannelSettings> = Vec::new();
        cfg.push(ChannelSettings {
            channel_id: 0,
            kind: ChannelKind::Reliable { resend_ms: RESEND_MS },
        });
        cfg.push(ChannelSettings {
            channel_id: 1,
            kind: ChannelKind::Reliable { resend_ms: RESEND_MS },
        });
        cfg.push(ChannelSettings {
            channel_id: 2,
            kind: ChannelKind::Unreliable { sequenced: true },
        });
        cfg.push(ChannelSettings { channel_id: 3, kind: ChannelKind::Chunked });
        cfg.push(ChannelSettings {
            channel_id: 4,
            kind: ChannelKind::Reliable { resend_ms: RESEND_MS },
        });
        cfg.push(ChannelSettings {
            channel_id: 5,
            kind: ChannelKind::Unreliable { sequenced: true },
        });
        cfg.push(ChannelSettings {
            channel_id: 6,
            kind: ChannelKind::Reliable { resend_ms: RESEND_MS },
        });
        cfg.push(ChannelSettings {
            channel_id: 7,
            kind: ChannelKind::Reliable { resend_ms: RESEND_MS },
        });
        cfg
    }
}

} // verus!
