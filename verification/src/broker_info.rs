use vstd::prelude::*;

verus! {

/// The broker's running totals, published under `$SYS/broker/...` by a
/// stats task. The caller holds one record and shares it as it sees fit;
/// every counter wraps on overflow as a fetch-and-add on a machine word
/// would.
#[derive(Clone, Copy, Debug, Default, PartialEq, Eq, Structural)]
pub struct BrokerInfo {
    pub bytes_received: usize,
    pub bytes_sent: usize,
    pub clients_connected: usize,
    pub messages_received: usize,
    pub messages_sent: usize,
    pub messages_publish_received: usize,
    pub messages_publish_sent: usize,
}

impl BrokerInfo {
    /// All counters at zero.
    pub fn new() -> (r: Self)
        ensures
            r == (BrokerInfo {
                bytes_received: 0,
                bytes_sent: 0,
                clients_connected: 0,
                messages_received: 0,
                messages_sent: 0,
                messages_publish_received: 0,
                messages_publish_sent: 0,
            }),
    {
        BrokerInfo {
            bytes_received: 0,
            bytes_sent: 0,
            clients_connected: 0,
            messages_received: 0,
            messages_sent: 0,
            messages_publish_received: 0,
            messages_publish_sent: 0,
        }
    }
}

/// Every counter, in one reading: bytes received, bytes sent, connected
/// clients, messages received, messages sent, publishes received,
/// publishes sent.
pub fn get_stats(info: &BrokerInfo) -> (r: (usize, usize, usize, usize, usize, usize, usize))
    ensures
        r.0 == info.bytes_received,
        r.1 == info.bytes_sent,
        r.2 == info.clients_connected,
        r.3 == info.messages_received,
        r.4 == info.messages_sent,
        r.5 == info.messages_publish_received,
        r.6 == info.messages_publish_sent,
{
    (
        info.bytes_received,
        info.bytes_sent,
        info.clients_connected,
        info.messages_received,
        info.messages_sent,
        info.messages_publish_received,
        info.messages_publish_sent,
    )
}

/// Count one received PUBLISH.
pub fn received_published(info: &mut BrokerInfo)
    ensures
        *final(info) == (BrokerInfo {
            messages_publish_received: vstd::wrapping::usize_specs::wrapping_add(
                old(info).messages_publish_received,
                1,
            ),
            ..*old(info)
        }),
{
    info.messages_publish_received = info.messages_publish_received.wrapping_add(1);
}

/// Count one sent PUBLISH.
pub fn sent_published(info: &mut BrokerInfo)
    ensures
        *final(info) == (BrokerInfo {
            messages_publish_sent: vstd::wrapping::usize_specs::wrapping_add(
                old(info).messages_publish_sent,
                1,
            ),
            ..*old(info)
        }),
{
    info.messages_publish_sent = info.messages_publish_sent.wrapping_add(1);
}

/// Count one received message of the given size.
pub fn received_data(info: &mut BrokerInfo, bytes_received: usize)
    ensures
        *final(info) == (BrokerInfo {
            bytes_received: vstd::wrapping::usize_specs::wrapping_add(
                old(info).bytes_received,
                bytes_received,
            ),
            messages_received: vstd::wrapping::usize_specs::wrapping_add(
                old(info).messages_received,
                1,
            ),
            ..*old(info)
        }),
{
    info.bytes_received = info.bytes_received.wrapping_add(bytes_received);
    info.messages_received = info.messages_received.wrapping_add(1);
}

/// Count one sent message of the given size.
pub fn sent_data(info: &mut BrokerInfo, sent_bytes: usize)
    ensures
        *final(info) == (BrokerInfo {
            bytes_sent: vstd::wrapping::usize_specs::wrapping_add(
                old(info).bytes_sent,
                sent_bytes,
            ),
            messages_sent: vstd::wrapping::usize_specs::wrapping_add(old(info).messages_sent, 1),
            ..*old(info)
        }),
{
    info.bytes_sent = info.bytes_sent.wrapping_add(sent_bytes);
    info.messages_sent = info.messages_sent.wrapping_add(1);
}

/// Count one client connecting.
pub fn client_inc(info: &mut BrokerInfo)
    ensures
        *final(info) == (BrokerInfo {
            clients_connected: vstd::wrapping::usize_specs::wrapping_add(
                old(info).clients_connected,
                1,
            ),
            ..*old(info)
        }),
{
    info.clients_connected = info.clients_connected.wrapping_add(1);
}

/// Count one client disconnecting.
pub fn client_dec(info: &mut BrokerInfo)
    ensures
        *final(info) == (BrokerInfo {
            clients_connected: vstd::wrapping::usize_specs::wrapping_sub(
                old(info).clients_connected,
                1,
            ),
            ..*old(info)
        }),
{
    info.clients_connected = info.clients_connected.wrapping_sub(1);
}

} // verus!
