//! What holds of a login from its first packet to its last, on either side.

use std::path::PathBuf;

use vstd::prelude::*;

use crate::local_server;
use crate::local_server::{Intention, LocalError, LocalPacket, LocalReply, LoginView, StepView};
use crate::plugin::FrameView;
use crate::relay;
use crate::relay::RelayError;
use crate::upstream;
use crate::upstream::{UpstreamLogin, UpstreamPacket, UpstreamStep};
use crate::wire;

verus! {

// The local side.

/// What a connection has come to after some packets.
pub open spec fn local_after(packets: Seq<LocalPacket>, protocol_version: i32) -> StepView
    decreases packets.len(),
{
    if packets.len() == 0 {
        StepView::Next { login: LoginView::Handshake, reply: LocalReply::Nothing }
    } else {
        match local_after(packets.drop_last(), protocol_version) {
            StepView::Next { login, .. } => local_server::stepped(
                login,
                packets.last(),
                protocol_version,
            ),
            ended => ended,
        }
    }
}

/// A connection becomes a client if and only if it says that it wants to log in
/// and speaks this version of the protocol, then who it is, and then confirms
/// that; it is then a client under the name and uuid that it gave.
pub proof fn clients_say_who_they_are(packets: Seq<LocalPacket>, protocol_version: i32)
    requires
        packets.len() == 3,
    ensures
        ({
            let r = local_after(packets, protocol_version);
            let wants = packets[0] == (LocalPacket::Intention {
                intention: Intention::Login,
                protocol_version,
            });
            &&& r is Done <==> wants && packets[1] is Hello && packets[2] is LoginAcknowledged
            &&& (r matches StepView::Done { username, uuid } ==> packets[1] matches LocalPacket::Hello {
                name,
                profile_id,
            } && username == name@ && uuid == profile_id)
        }),
{
    reveal_with_fuel(local_after, 4);
    let two = packets.drop_last();
    let one = two.drop_last();
    assert(one.drop_last() =~= Seq::<LocalPacket>::empty());
    assert(one.last() == packets[0] && two.last() == packets[1]);
}

/// No connection is a client after fewer packets.
pub proof fn nobody_is_a_client_at_once(packets: Seq<LocalPacket>, protocol_version: i32)
    requires
        packets.len() < 3,
    ensures
        !(local_after(packets, protocol_version) is Done),
{
    reveal_with_fuel(local_after, 4);
    if packets.len() == 2 {
        let one = packets.drop_last();
        assert(one.drop_last() =~= Seq::<LocalPacket>::empty());
    } else if packets.len() == 1 {
        assert(packets.drop_last() =~= Seq::<LocalPacket>::empty());
    }
}

/// A connection that asks for the status gets it, whatever version it speaks,
/// and its ping is answered with the time that it carries; then it is let go.
pub proof fn status_and_ping_are_answered(client: i32, protocol_version: i32, time: u64)
    ensures
        ({
            let first = LocalPacket::Intention {
                intention: Intention::Status,
                protocol_version: client,
            };
            let asked = seq![first, LocalPacket::StatusRequest];
            let pinged = asked.push(LocalPacket::PingRequest { time });
            &&& (local_after(asked, protocol_version) matches StepView::Next { reply, .. } && reply
                == LocalReply::Status)
            &&& local_after(pinged, protocol_version) == (StepView::Failed {
                error: LocalError::StatusPing,
                reply: LocalReply::Pong { time },
            })
        }),
{
    reveal_with_fuel(local_after, 4);
    let first = LocalPacket::Intention { intention: Intention::Status, protocol_version: client };
    let asked = seq![first, LocalPacket::StatusRequest];
    let pinged = asked.push(LocalPacket::PingRequest { time });
    assert(pinged.drop_last() =~= asked);
    assert(asked.drop_last() =~= seq![first]);
    assert(seq![first].drop_last() =~= Seq::<LocalPacket>::empty());
}

/// A connection that wants to log in with another version is refused with the
/// version that it speaks; one that was transferred is refused; what comes out of
/// turn is refused by name.
pub proof fn logins_are_refused_for_a_reason(
    client: i32,
    protocol_version: i32,
    packet: LocalPacket,
    username: Seq<char>,
    uuid: u128,
)
    ensures
        client != protocol_version ==> local_server::stepped(
            LoginView::Handshake,
            LocalPacket::Intention { intention: Intention::Login, protocol_version: client },
            protocol_version,
        ) == (StepView::Failed {
            error: LocalError::ProtocolVersion { client },
            reply: LocalReply::Nothing,
        }),
        local_server::stepped(
            LoginView::Handshake,
            LocalPacket::Intention { intention: Intention::Transfer, protocol_version: client },
            protocol_version,
        ) == (StepView::Failed { error: LocalError::Transfer, reply: LocalReply::Nothing }),
        !(packet is Intention) ==> local_server::stepped(
            LoginView::Handshake,
            packet,
            protocol_version,
        ) == (StepView::Failed {
            error: LocalError::ExpectedIntention,
            reply: LocalReply::Nothing,
        }),
        !(packet is Hello) ==> local_server::stepped(LoginView::Hello, packet, protocol_version)
            == (StepView::Failed { error: LocalError::ExpectedHello, reply: LocalReply::Nothing }),
        !(packet is LoginAcknowledged) ==> local_server::stepped(
            LoginView::Acknowledge { username, uuid },
            packet,
            protocol_version,
        ) == (StepView::Failed {
            error: LocalError::ExpectedLoginAcknowledged,
            reply: LocalReply::Nothing,
        }),
{
}

// The upstream side.

/// What the login upstream has come to after some packets of the server.
pub open spec fn upstream_after(packets: Seq<UpstreamPacket>) -> UpstreamStep
    decreases packets.len(),
{
    if packets.len() == 0 {
        UpstreamStep::Ignore { login: UpstreamLogin::Hello }
    } else {
        match upstream_after(packets.drop_last()) {
            UpstreamStep::Encrypt { login } => upstream::stepped(login, packets.last()),
            UpstreamStep::Compress { login, .. } => upstream::stepped(login, packets.last()),
            UpstreamStep::Ignore { login } => upstream::stepped(login, packets.last()),
            ended => ended,
        }
    }
}

/// The last compression threshold that the server set.
pub open spec fn last_threshold(packets: Seq<UpstreamPacket>) -> Option<i32>
    decreases packets.len(),
{
    if packets.len() == 0 {
        None
    } else {
        match packets.last() {
            UpstreamPacket::LoginCompression { threshold } => Some(threshold),
            _ => last_threshold(packets.drop_last()),
        }
    }
}

/// The threshold as the connection keeps it.
pub open spec fn kept_threshold(threshold: Option<i32>) -> Option<u32> {
    match threshold {
        Some(t) => Some(wire::unsigned(t)),
        None => None,
    }
}

/// Before the login ends: where the server first asked for encryption, the
/// connection is encrypted and knows the last threshold; where it did not, the
/// login has failed.
proof fn upstream_state(packets: Seq<UpstreamPacket>)
    requires
        packets.len() > 0,
        forall|i: int| 0 <= i < packets.len() ==> #[trigger] packets[i]
            != UpstreamPacket::LoginFinished,
    ensures
        packets[0] == UpstreamPacket::EncryptionRequest ==> ({
            let login = UpstreamLogin::Encrypted {
                compression_threshold: kept_threshold(last_threshold(packets)),
            };
            match upstream_after(packets) {
                UpstreamStep::Encrypt { login: at } => at == login,
                UpstreamStep::Compress { login: at, .. } => at == login,
                UpstreamStep::Ignore { login: at } => at == login,
                _ => false,
            }
        }),
        packets[0] != UpstreamPacket::EncryptionRequest ==> upstream_after(packets)
            == UpstreamStep::ExpectedEncryption,
    decreases packets.len(),
{
    let before = packets.drop_last();
    reveal_with_fuel(upstream_after, 2);
    reveal_with_fuel(last_threshold, 2);
    if packets.len() == 1 {
        assert(before =~= Seq::<UpstreamPacket>::empty());
        assert(packets.last() == packets[0]);
    } else {
        assert forall|i: int| 0 <= i < before.len() implies #[trigger] before[i]
            != UpstreamPacket::LoginFinished by {
            assert(before[i] == packets[i]);
        }
        upstream_state(before);
        assert(packets.last() == packets[packets.len() - 1]);
    }
}

/// The login upstream is complete with the packet that ends it, if and only if
/// the server asked for encryption first; the connection is then compressed from
/// the last size on that the server set, or not at all where it set none.
pub proof fn the_login_upstream_ends_encrypted(packets: Seq<UpstreamPacket>)
    requires
        packets.len() > 0,
        forall|i: int| 0 <= i < packets.len() ==> #[trigger] packets[i]
            != UpstreamPacket::LoginFinished,
    ensures
        ({
            let r = upstream_after(packets.push(UpstreamPacket::LoginFinished));
            &&& packets[0] == UpstreamPacket::EncryptionRequest ==> r == (UpstreamStep::Finish {
                compression_threshold: kept_threshold(last_threshold(packets)),
            })
            &&& packets[0] != UpstreamPacket::EncryptionRequest ==> r
                == UpstreamStep::ExpectedEncryption
        }),
{
    upstream_state(packets);
    let all = packets.push(UpstreamPacket::LoginFinished);
    assert(all.drop_last() =~= packets);
}

/// Each threshold that the server sets is put to use at once.
pub proof fn thresholds_are_put_to_use(before: Option<u32>, threshold: i32)
    ensures
        upstream::stepped(
            UpstreamLogin::Encrypted { compression_threshold: before },
            UpstreamPacket::LoginCompression { threshold },
        ) matches UpstreamStep::Compress { threshold: used, .. } && used == threshold,
{
}

/// Tokens are kept where the configuration says, whatever the environment says;
/// where it says nothing, where the environment says; and only then in the
/// game's own folder.
pub proof fn the_configuration_comes_before_the_environment(
    path: PathBuf,
    environment: Option<PathBuf>,
    folder: Option<PathBuf>,
)
    ensures
        upstream::auth_cache_place(Some(path), environment, folder) == Some(path),
        upstream::auth_cache_place(None, Some(path), folder) == Some(path),
        upstream::auth_cache_place(None, None, folder) == folder,
{
}

// Packets of the local connection.

/// The length at the front of some bytes: as many groups of seven bits as there
/// are marked bytes and one more, at most five.
pub open spec fn front_length(b: Seq<u8>, n: int) -> bool {
    &&& 1 <= n <= 5 && n <= b.len()
    &&& b[n - 1] < 128
    &&& forall|i: int| 0 <= i < n - 1 ==> #[trigger] b[i] >= 128
}

/// A raw packet is a frame if and only if it holds a whole packet id: one that
/// ends with its first unmarked byte, or with the fifth. What follows the id is
/// the payload, to the last byte.
pub proof fn frames_are_read_behind_their_id(raw: Seq<u8>, n: int)
    ensures
        front_length(raw, n) ==> relay::decoded(raw) == Some(
            FrameView {
                packet_id: relay::groups_value(raw.take(n)) as u32,
                body: raw.skip(n),
            },
        ),
        raw.len() < 5 && (forall|i: int| 0 <= i < raw.len() ==> #[trigger] raw[i] >= 128)
            ==> relay::decoded(raw) is None,
{
    if front_length(raw, n) {
        assert(wire::varint_end(raw) == Some(n as nat));
    }
}

/// Whatever comes out of the pending bytes stood there behind its length, and
/// what stays pending stood behind it; nothing is lost and nothing made up.
pub proof fn packets_come_out_as_they_came_in(b: Seq<u8>)
    ensures
        relay::next_packet(b) matches Ok(Some((raw, rest))) ==> exists|n: int| #[trigger]
            front_length(b, n) && raw.len() == relay::groups_value(b.take(n)) && b == b.take(n)
                + raw + rest,
{
    if let Ok(Some((raw, rest))) = relay::next_packet(b) {
        let n = wire::varint_end(b)->0 as int;
        assert(front_length(b, n));
        assert(b =~= b.take(n) + raw + rest);
    }
}

/// A length of more than the limit is refused as soon as it is there, with the
/// length; one that does not end within five bytes is refused; and nothing else
/// is.
pub proof fn only_bad_lengths_are_refused(b: Seq<u8>, n: int)
    requires
        front_length(b, n),
    ensures
        ({
            let length = relay::groups_value(b.take(n));
            &&& length > 8388608 ==> relay::next_packet(b) == Err::<
                Option<(Seq<u8>, Seq<u8>)>,
                RelayError,
            >(RelayError::TooLong { length: length as usize })
            &&& length <= 8388608 ==> relay::next_packet(b) is Ok
            &&& length <= 8388608 && b.len() >= n + length ==> relay::next_packet(b)->Ok_0 is Some
            &&& length <= 8388608 && b.len() < n + length ==> relay::next_packet(b)->Ok_0 is None
        }),
{
    assert(wire::varint_end(b) == Some(n as nat));
}

/// Five marked bytes are no length; fewer are the start of one.
pub proof fn unending_lengths_are_refused(b: Seq<u8>)
    requires
        forall|i: int| 0 <= i < b.len() && i < 5 ==> #[trigger] b[i] >= 128,
    ensures
        b.len() >= 5 ==> relay::next_packet(b) == Err::<Option<(Seq<u8>, Seq<u8>)>, RelayError>(
            RelayError::LengthVarInt,
        ),
        b.len() < 5 ==> relay::next_packet(b) == Ok::<Option<(Seq<u8>, Seq<u8>)>, RelayError>(None),
{
    if b.len() >= 5 {
        assert(b[0] >= 128 && b[1] >= 128 && b[2] >= 128 && b[3] >= 128 && b[4] >= 128);
        assert(wire::varint_end(b) == Some(5nat));
    } else {
        assert(wire::varint_end(b) is None);
    }
}

} // verus!
