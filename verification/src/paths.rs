//! What a peer's advertised address says about the path to it: a local or
//! private IP means the local network, any other IP a direct path, and no
//! IP at all a relay. Each kind of transport comes with a static baseline
//! of what it can carry.
use vstd::prelude::*;

verus! {

/// An IP address as plain values.
#[derive(Debug, Clone, Copy, PartialEq, Eq, Structural)]
pub enum IpValue {
    V4(u8, u8, u8, u8),
    /// The eight 16-bit segments, most significant first.
    V6(u16, u16, u16, u16, u16, u16, u16, u16),
}

/// One transport address of a peer: an IP socket address or a relay.
#[derive(Debug, Clone, Copy, PartialEq, Eq, Structural)]
pub enum TransportAddrValue {
    Ip { ip: IpValue, port: u16 },
    Relay,
}

/// The transports a path can run over.
#[derive(Debug, Clone, Copy, PartialEq, Eq, Structural)]
pub enum TransportKind {
    IrohDirect,
    IrohRelay,
    LocalLan,
    WifiDirect,
    WifiAware,
    BluetoothClassic,
    BluetoothLe,
    MeshRelay,
    Dtn,
}

/// Whether a path is metered; the static baseline does not know.
#[derive(Debug, Clone, Copy, PartialEq, Eq, Structural)]
pub enum MeteredState {
    Unknown,
}

/// Whether a path is roaming; the static baseline does not know.
#[derive(Debug, Clone, Copy, PartialEq, Eq, Structural)]
pub enum RoamingState {
    Unknown,
}

/// What a path can carry.
#[derive(Debug, Clone, Copy, PartialEq, Eq, Structural)]
pub struct PathCapabilities {
    pub reliable_stream: bool,
    pub datagram: bool,
    pub large_files: bool,
    pub realtime_media: bool,
    pub peer_discovery: bool,
    pub store_and_forward: bool,
    pub metered: MeteredState,
    pub roaming: RoamingState,
    pub requires_foreground: bool,
}

/// Private (10/8, 172.16/12, 192.168/16), link-local (169.254/16) or
/// loopback (127/8) IPv4, or loopback (`::1`) or unique-local (fc00::/7)
/// IPv6.
pub open spec fn is_local_or_private(ip: IpValue) -> bool {
    match ip {
        IpValue::V4(a, b, _, _) => a == 10 || (a == 172 && 16 <= b < 32) || (a == 192 && b == 168) || (a == 169
            && b == 254) || a == 127,
        IpValue::V6(s0, s1, s2, s3, s4, s5, s6, s7) => (s0 == 0 && s1 == 0 && s2 == 0 && s3 == 0 && s4 == 0 && s5
            == 0 && s6 == 0 && s7 == 1) || (0xfc00 <= s0 < 0xfe00),
    }
}

fn local_or_private(ip: IpValue) -> (r: bool)
    ensures
        r == is_local_or_private(ip),
{
    match ip {
        IpValue::V4(a, b, _, _) => a == 10 || (a == 172 && 16 <= b && b < 32) || (a == 192 && b == 168) || (a == 169
            && b == 254) || a == 127,
        IpValue::V6(s0, s1, s2, s3, s4, s5, s6, s7) => {
            let loopback = s0 == 0 && s1 == 0 && s2 == 0 && s3 == 0 && s4 == 0 && s5 == 0 && s6 == 0 && s7 == 1;
            let unique_local = (s0 & 0xfe00) == 0xfc00;
            assert(((s0 & 0xfe00) == 0xfc00) == (0xfc00 <= s0 && s0 < 0xfe00)) by (bit_vector);
            loopback || unique_local
        },
    }
}

/// The kind of path an address list points to: the local network where
/// any IP is local or private, a direct path where there is some other
/// IP, else a relay.
pub open spec fn spec_classify(addrs: Seq<TransportAddrValue>) -> TransportKind {
    if exists|i: int| 0 <= i < addrs.len() && (#[trigger] addrs[i] matches TransportAddrValue::Ip { ip, .. }
        && is_local_or_private(ip)) {
        TransportKind::LocalLan
    } else if exists|i: int| 0 <= i < addrs.len() && #[trigger] addrs[i] is Ip {
        TransportKind::IrohDirect
    } else {
        TransportKind::IrohRelay
    }
}

/// Classifies a peer's advertised addresses.
pub fn classify_endpoint_addr(addrs: &[TransportAddrValue]) -> (r: TransportKind)
    ensures
        r == spec_classify(addrs@),
{
    let mut saw_any_ip = false;
    let mut i: usize = 0;
    while i < addrs.len()
        invariant
            i <= addrs@.len(),
            saw_any_ip == exists|j: int| 0 <= j < i && #[trigger] addrs@[j] is Ip,
            forall|j: int| 0 <= j < i ==> !(#[trigger] addrs@[j] matches TransportAddrValue::Ip { ip, .. }
                && is_local_or_private(ip)),
        decreases addrs@.len() - i,
    {
        match addrs[i] {
            TransportAddrValue::Ip { ip, .. } => {
                saw_any_ip = true;
                if local_or_private(ip) {
                    return TransportKind::LocalLan;
                }
            },
            TransportAddrValue::Relay => {},
        }
        i += 1;
    }
    if saw_any_ip {
        TransportKind::IrohDirect
    } else {
        TransportKind::IrohRelay
    }
}

/// The static baseline of what each kind of transport carries: reliable
/// streams everywhere but BLE and DTN, datagrams everywhere, large files
/// and real-time media only over IP-class links, peer discovery over the
/// local and short-range radios, store-and-forward only over DTN; metering
/// and roaming unknown, no foreground requirement.
pub open spec fn spec_capabilities(kind: TransportKind) -> PathCapabilities {
    let (reliable_stream, datagram, large_files, realtime_media, peer_discovery, store_and_forward) = match kind {
        TransportKind::IrohDirect | TransportKind::IrohRelay => (true, true, true, true, false, false),
        TransportKind::LocalLan | TransportKind::WifiDirect | TransportKind::WifiAware => (true, true, true, true, true, false),
        TransportKind::BluetoothClassic => (true, true, false, false, true, false),
        TransportKind::BluetoothLe => (false, true, false, false, true, false),
        TransportKind::MeshRelay => (true, true, false, false, false, false),
        TransportKind::Dtn => (false, true, false, false, false, true),
    };
    PathCapabilities {
        reliable_stream,
        datagram,
        large_files,
        realtime_media,
        peer_discovery,
        store_and_forward,
        metered: MeteredState::Unknown,
        roaming: RoamingState::Unknown,
        requires_foreground: false,
    }
}

/// What a kind of transport can carry.
pub fn capabilities_for(kind: TransportKind) -> (r: PathCapabilities)
    ensures
        r == spec_capabilities(kind),
{
    let (reliable_stream, datagram, large_files, realtime_media, peer_discovery, store_and_forward) = match kind {
        TransportKind::IrohDirect | TransportKind::IrohRelay => (true, true, true, true, false, false),
        TransportKind::LocalLan | TransportKind::WifiDirect | TransportKind::WifiAware => (true, true, true, true, true, false),
        TransportKind::BluetoothClassic => (true, true, false, false, true, false),
        TransportKind::BluetoothLe => (false, true, false, false, true, false),
        TransportKind::MeshRelay => (true, true, false, false, false, false),
        TransportKind::Dtn => (false, true, false, false, false, true),
    };
    PathCapabilities {
        reliable_stream,
        datagram,
        large_files,
        realtime_media,
        peer_discovery,
        store_and_forward,
        metered: MeteredState::Unknown,
        roaming: RoamingState::Unknown,
        requires_foreground: false,
    }
}

/// Only DTN paths store and forward.
pub proof fn lemma_only_dtn_stores_and_forwards(kind: TransportKind)
    ensures
        spec_capabilities(kind).store_and_forward <==> kind == TransportKind::Dtn,
{
}

/// The IP-class transports: iroh direct or relayed, the local network, and
/// Wi-Fi Direct or Aware.
pub open spec fn is_ip_class(kind: TransportKind) -> bool {
    kind == TransportKind::IrohDirect || kind == TransportKind::IrohRelay || kind == TransportKind::LocalLan || kind
        == TransportKind::WifiDirect || kind == TransportKind::WifiAware
}

/// What each kind carries, by kind of link: exactly the IP-class links carry
/// large files and real-time media; every link carries datagrams; all but
/// Bluetooth LE and DTN carry reliable streams; the local network, Wi-Fi
/// Direct and Aware and both Bluetooth links discover peers; metering and
/// roaming stay unknown and nothing needs the foreground.
pub proof fn lemma_capabilities_by_link(kind: TransportKind)
    ensures
        spec_capabilities(kind).large_files <==> is_ip_class(kind),
        spec_capabilities(kind).realtime_media <==> is_ip_class(kind),
        spec_capabilities(kind).datagram,
        spec_capabilities(kind).reliable_stream <==> !(kind == TransportKind::BluetoothLe || kind == TransportKind::Dtn),
        spec_capabilities(kind).peer_discovery <==> (kind == TransportKind::LocalLan || kind == TransportKind::WifiDirect
            || kind == TransportKind::WifiAware || kind == TransportKind::BluetoothClassic || kind
            == TransportKind::BluetoothLe),
        spec_capabilities(kind).metered == MeteredState::Unknown,
        spec_capabilities(kind).roaming == RoamingState::Unknown,
        !spec_capabilities(kind).requires_foreground,
{
}

/// Which addresses count as local: private IPv4 (10/8, 172.16/12,
/// 192.168/16), link-local IPv4 (169.254/16), IPv4 loopback (127/8), IPv6
/// loopback and unique-local IPv6 (fc00::/7); every other address is
/// public.
pub proof fn lemma_local_addresses(a: u8, b: u8, c: u8, d: u8, s0: u16, s7: u16)
    ensures
        is_local_or_private(IpValue::V4(a, b, c, d)) <==> (a == 10 || (a == 172 && 16 <= b <= 31) || (a == 192 && b
            == 168) || (a == 169 && b == 254) || a == 127),
        is_local_or_private(IpValue::V6(0, 0, 0, 0, 0, 0, 0, 1)),
        0xfc00 <= s0 <= 0xfdff ==> is_local_or_private(IpValue::V6(s0, 0, 0, 0, 0, 0, 0, s7)),
        (s0 < 0xfc00 || s0 > 0xfdff) && s0 != 0 ==> !is_local_or_private(IpValue::V6(s0, 0, 0, 0, 0, 0, 0, s7)),
{
}

/// A peer with any local address is reached over the local network; one
/// with only public addresses directly; one with no address at all through
/// a relay. Adding a public address never changes a local verdict.
pub proof fn lemma_classify_by_addresses(addrs: Seq<TransportAddrValue>, extra: TransportAddrValue)
    ensures
        (exists|i: int| 0 <= i < addrs.len() && (#[trigger] addrs[i] matches TransportAddrValue::Ip { ip, .. }
            && is_local_or_private(ip))) ==> spec_classify(addrs) == TransportKind::LocalLan,
        (forall|i: int| 0 <= i < addrs.len() ==> #[trigger] addrs[i] is Relay) ==> spec_classify(addrs)
            == TransportKind::IrohRelay,
        spec_classify(addrs) == TransportKind::LocalLan ==> spec_classify(addrs.push(extra)) == TransportKind::LocalLan,
        spec_classify(addrs) != TransportKind::IrohRelay ==> spec_classify(addrs.push(extra)) != TransportKind::IrohRelay,
{
    let ext = addrs.push(extra);
    if spec_classify(addrs) == TransportKind::LocalLan {
        let i = choose|i: int| 0 <= i < addrs.len() && (#[trigger] addrs[i] matches TransportAddrValue::Ip { ip, .. }
            && is_local_or_private(ip));
        assert(ext[i] == addrs[i]);
    }
    if spec_classify(addrs) != TransportKind::IrohRelay {
        if exists|i: int| 0 <= i < addrs.len() && (#[trigger] addrs[i] matches TransportAddrValue::Ip { ip, .. }
            && is_local_or_private(ip)) {
            let i = choose|i: int| 0 <= i < addrs.len() && (#[trigger] addrs[i] matches TransportAddrValue::Ip { ip, .. }
                && is_local_or_private(ip));
            assert(ext[i] == addrs[i]);
        } else {
            let i = choose|i: int| 0 <= i < addrs.len() && #[trigger] addrs[i] is Ip;
            assert(ext[i] == addrs[i]);
        }
    }
}

} // verus!
