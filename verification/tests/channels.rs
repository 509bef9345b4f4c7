use gridcore::channels::{ChannelKind, ClientChannel, ServerChannel, RESEND_MS};

#[test]
fn client_channel_numbers() {
    assert_eq!(u8::from(ClientChannel::Command), 0);
    assert_eq!(u8::from(ClientChannel::Input), 1);
    assert_eq!(u8::from(ClientChannel::Click), 2);
}

#[test]
fn server_channel_numbers() {
    assert_eq!(u8::from(ServerChannel::Spawn), 0);
    assert_eq!(u8::from(ServerChannel::Despawn), 1);
    assert_eq!(u8::from(ServerChannel::Update), 2);
    assert_eq!(u8::from(ServerChannel::Load), 3);
    assert_eq!(u8::from(ServerChannel::ServerMessages), 4);
    assert_eq!(u8::from(ServerChannel::Tick), 5);
    assert_eq!(u8::from(ServerChannel::Test), 6);
    assert_eq!(u8::from(ServerChannel::ServerEvents), 7);
}

#[test]
fn client_channels_config_table() {
    let cfg = ClientChannel::channels_config();
    assert_eq!(cfg.len(), 3);
    assert_eq!(cfg[0].channel_id, 1);
    assert_eq!(cfg[0].kind, ChannelKind::Unreliable { sequenced: true });
    assert_eq!(cfg[1].channel_id, 0);
    assert_eq!(cfg[1].kind, ChannelKind::Unreliable { sequenced: true });
    assert_eq!(cfg[2].channel_id, 2);
    assert_eq!(cfg[2].kind, ChannelKind::Unreliable { sequenced: false });
}

#[test]
fn server_channels_config_table() {
    let cfg = ServerChannel::channels_config();
    assert_eq!(cfg.len(), 8);
    // spawn and despawn are reliable with resend-on-loss
    assert_eq!(cfg[0].kind, ChannelKind::Reliable { resend_ms: RESEND_MS });
    assert_eq!(cfg[1].kind, ChannelKind::Reliable { resend_ms: RESEND_MS });
    // updates and ticks are unreliable but sequenced
    assert_eq!(cfg[2].kind, ChannelKind::Unreliable { sequenced: true });
    assert_eq!(cfg[5].kind, ChannelKind::Unreliable { sequenced: true });
    // the bulk load path is chunked
    assert_eq!(cfg[3].kind, ChannelKind::Chunked);
    assert_eq!(cfg[4].kind, ChannelKind::Reliable { resend_ms: RESEND_MS });
    assert_eq!(cfg[6].kind, ChannelKind::Reliable { resend_ms: RESEND_MS });
    assert_eq!(cfg[7].kind, ChannelKind::Reliable { resend_ms: RESEND_MS });
    for (i, c) in cfg.iter().enumerate() {
        assert_eq!(c.channel_id as usize, i);
    }
}
