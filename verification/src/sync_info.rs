//! What the server tells clients about itself, and the forms in which it is handed over: a header,
//! the TXT record of the local network's discovery, and the code that clients scan.
use vstd::prelude::*;

use crate::bytes;
use crate::codec;
use crate::config::{Config, HostAddress};
use crate::pieces;
use crate::protocol::{PAIRING_VERSION, RELAY_VERSION};
use crate::text;

verus! {

/// The revision under which the server presents itself.
pub const APP_REVISION: &'static str = "server";

/// An application.
#[derive(Debug)]
pub struct AppInfo {
    pub app_instance_id: String,
    pub app_version: String,
    pub app_revision: String,
    pub user_name: String,
    pub pairing_version: Option<i32>,
}

/// An [`AppInfo`] with its texts by their characters.
#[verifier::ext_equal]
pub struct AppInfoView {
    pub app_instance_id: Seq<char>,
    pub app_version: Seq<char>,
    pub app_revision: Seq<char>,
    pub user_name: Seq<char>,
    pub pairing_version: Option<i32>,
}

impl View for AppInfo {
    type V = AppInfoView;

    open spec fn view(&self) -> AppInfoView {
        AppInfoView {
            app_instance_id: self.app_instance_id@,
            app_version: self.app_version@,
            app_revision: self.app_revision@,
            user_name: self.user_name@,
            pairing_version: self.pairing_version,
        }
    }
}

impl Clone for AppInfo {
    fn clone(&self) -> (copy: Self)
        ensures
            copy == *self,
    {
        AppInfo {
            app_instance_id: self.app_instance_id.clone(),
            app_version: self.app_version.clone(),
            app_revision: self.app_revision.clone(),
            user_name: self.user_name.clone(),
            pairing_version: self.pairing_version,
        }
    }
}

/// An address at which a device is reached.
#[derive(Debug)]
pub struct HostInfo {
    pub network_prefix_length: i16,
    pub host_address: String,
    pub last_seen: i64,
}

/// A [`HostInfo`] with its texts by their characters.
#[verifier::ext_equal]
pub struct HostInfoView {
    pub network_prefix_length: i16,
    pub host_address: Seq<char>,
    pub last_seen: i64,
}

impl View for HostInfo {
    type V = HostInfoView;

    open spec fn view(&self) -> HostInfoView {
        HostInfoView {
            network_prefix_length: self.network_prefix_length,
            host_address: self.host_address@,
            last_seen: self.last_seen,
        }
    }
}

impl Clone for HostInfo {
    fn clone(&self) -> (copy: Self)
        ensures
            copy == *self,
    {
        HostInfo {
            network_prefix_length: self.network_prefix_length,
            host_address: self.host_address.clone(),
            last_seen: self.last_seen,
        }
    }
}

/// Addresses with their texts by their characters.
pub open spec fn host_views(hosts: Seq<HostInfo>) -> Seq<HostInfoView> {
    hosts.map_values(|host: HostInfo| host@)
}

/// What a device runs on.
#[derive(Debug)]
pub struct PlatformInfo {
    pub name: String,
    pub arch: String,
    pub bit_mode: i32,
    pub version: String,
}

/// A [`PlatformInfo`] with its texts by their characters.
#[verifier::ext_equal]
pub struct PlatformInfoView {
    pub name: Seq<char>,
    pub arch: Seq<char>,
    pub bit_mode: i32,
    pub version: Seq<char>,
}

impl View for PlatformInfo {
    type V = PlatformInfoView;

    open spec fn view(&self) -> PlatformInfoView {
        PlatformInfoView {
            name: self.name@,
            arch: self.arch@,
            bit_mode: self.bit_mode,
            version: self.version@,
        }
    }
}

impl Clone for PlatformInfo {
    fn clone(&self) -> (copy: Self)
        ensures
            copy == *self,
    {
        PlatformInfo {
            name: self.name.clone(),
            arch: self.arch.clone(),
            bit_mode: self.bit_mode,
            version: self.version.clone(),
        }
    }
}

/// A device and where it is reached.
#[derive(Debug)]
pub struct EndpointInfo {
    pub device_id: String,
    pub device_name: String,
    pub platform: PlatformInfo,
    pub host_info_list: Vec<HostInfo>,
    pub port: i32,
}

/// An [`EndpointInfo`] with its texts by their characters.
#[verifier::ext_equal]
pub struct EndpointInfoView {
    pub device_id: Seq<char>,
    pub device_name: Seq<char>,
    pub platform: PlatformInfoView,
    pub host_info_list: Seq<HostInfoView>,
    pub port: i32,
}

impl View for EndpointInfo {
    type V = EndpointInfoView;

    open spec fn view(&self) -> EndpointInfoView {
        EndpointInfoView {
            device_id: self.device_id@,
            device_name: self.device_name@,
            platform: self.platform@,
            host_info_list: host_views(self.host_info_list@),
            port: self.port,
        }
    }
}

fn copy_hosts(hosts: &Vec<HostInfo>) -> (copy: Vec<HostInfo>)
    ensures
        copy@ == hosts@,
{
    let mut copy: Vec<HostInfo> = Vec::new();
    let mut i: usize = 0;
    while i < hosts.len()
        invariant
            i <= hosts@.len(),
            copy@ == hosts@.take(i as int),
        decreases hosts@.len() - i,
    {
        copy.push(hosts[i].clone());
        i += 1;
        assert(hosts@.take(i as int) =~= hosts@.take(i - 1).push(hosts@[i - 1]));
    }
    assert(hosts@.take(i as int) =~= hosts@);
    copy
}

impl Clone for EndpointInfo {
    fn clone(&self) -> (copy: Self)
        ensures
            copy@ == self@,
    {
        EndpointInfo {
            device_id: self.device_id.clone(),
            device_name: self.device_name.clone(),
            platform: self.platform.clone(),
            host_info_list: copy_hosts(&self.host_info_list),
            port: self.port,
        }
    }
}

/// What a device tells others about itself.
#[derive(Debug)]
pub struct SyncInfo {
    pub app_info: AppInfo,
    pub endpoint_info: EndpointInfo,
}

/// A [`SyncInfo`] with its texts by their characters.
#[verifier::ext_equal]
pub struct SyncInfoView {
    pub app_info: AppInfoView,
    pub endpoint_info: EndpointInfoView,
}

impl View for SyncInfo {
    type V = SyncInfoView;

    open spec fn view(&self) -> SyncInfoView {
        SyncInfoView { app_info: self.app_info@, endpoint_info: self.endpoint_info@ }
    }
}

impl Clone for SyncInfo {
    fn clone(&self) -> (copy: Self)
        ensures
            copy@ == self@,
    {
        SyncInfo { app_info: self.app_info.clone(), endpoint_info: self.endpoint_info.clone() }
    }
}

/// A network interface of the machine.
#[derive(Debug)]
pub struct Interface {
    pub name: String,
    pub up: bool,
    pub loopback: bool,
    pub link_local: bool,
    pub point_to_point: bool,
    /// Its IPv4 address, where it has one.
    pub v4: Option<[u8; 4]>,
    /// How many bits of the address name the network.
    pub prefix: u8,
}

/// The prefix length that is told of an address whose own is not known.
pub open spec fn prefix_of(v6: bool) -> i16 {
    if v6 {
        64
    } else {
        24
    }
}

/// The prefix length that is told of an address whose own is not known.
pub fn default_prefix(host: &HostAddress) -> (prefix: i16)
    ensures
        prefix == prefix_of(host.v6),
{
    if host.v6 {
        64
    } else {
        24
    }
}

/// The name under which CrossPaste knows an operating system.
pub open spec fn platform(os: Seq<char>) -> Seq<char> {
    if os == "macos"@ {
        "Macos"@
    } else if os == "windows"@ {
        "Windows"@
    } else if os == "linux"@ {
        "Linux"@
    } else {
        "Unknown"@
    }
}

/// The name under which CrossPaste knows an operating system.
pub fn platform_name(os: &str) -> (name: &'static str)
    ensures
        name@ == platform(os@),
{
    if text::same_text(os, "macos") {
        "Macos"
    } else if text::same_text(os, "windows") {
        "Windows"
    } else if text::same_text(os, "linux") {
        "Linux"
    } else {
        "Unknown"
    }
}

/// An IPv4 address in text: its four numbers, parted by dots.
pub open spec fn dotted(octets: Seq<u8>) -> Seq<char> {
    text::decimal(octets[0] as int) + "."@ + text::decimal(octets[1] as int) + "."@ + text::decimal(
        octets[2] as int,
    ) + "."@ + text::decimal(octets[3] as int)
}

fn dotted_text(octets: &[u8; 4]) -> (address: String)
    ensures
        address@ == dotted(octets@),
{
    text::unsigned_text(octets[0] as u64).concat(".").concat(
        text::unsigned_text(octets[1] as u64).as_str(),
    ).concat(".").concat(text::unsigned_text(octets[2] as u64).as_str()).concat(".").concat(
        text::unsigned_text(octets[3] as u64).as_str(),
    )
}

/// What sort of interface a name stands for: 0 for a wired or wireless one, 2 for one that leads
/// through other software, 1 for any other.
pub open spec fn interface_type(name: Seq<char>) -> u8 {
    let name = text::lower_text(name);
    if text::stands_at(name, 0, "en"@) || text::stands_at(name, 0, "eth"@) || text::stands_at(
        name,
        0,
        "wlan"@,
    ) || text::stands_at(name, 0, "wl"@) {
        0
    } else if text::stands_at(name, 0, "utun"@) || text::stands_at(name, 0, "tun"@)
        || text::stands_at(name, 0, "tap"@) || text::stands_at(name, 0, "docker"@)
        || text::stands_at(name, 0, "bridge"@) || text::stands_at(name, 0, "veth"@) {
        2
    } else {
        1
    }
}

/// What sort of network an address belongs to: first those of homes and offices.
pub open spec fn subnet_type(octets: Seq<u8>) -> u8 {
    if octets[0] == 192 && octets[1] == 168 {
        0
    } else if octets[0] == 172 && 16 <= octets[1] <= 31 {
        1
    } else if octets[0] == 10 {
        2
    } else {
        3
    }
}

/// How far back an interface stands when one is chosen: by its sort, then by its network, then by
/// how small its network is.
#[derive(Debug, Clone, Copy)]
pub struct Rank {
    pub interface_type: u8,
    pub subnet: u8,
    pub prefix: u8,
}

/// Whether one rank stands before another.
pub open spec fn before(a: Rank, b: Rank) -> bool {
    ||| a.interface_type < b.interface_type
    ||| a.interface_type == b.interface_type && a.subnet < b.subnet
    ||| a.interface_type == b.interface_type && a.subnet == b.subnet && a.prefix > b.prefix
}

fn stands_before(a: Rank, b: Rank) -> (yes: bool)
    ensures
        yes == before(a, b),
{
    a.interface_type < b.interface_type || (a.interface_type == b.interface_type && (a.subnet
        < b.subnet || (a.subnet == b.subnet && a.prefix > b.prefix)))
}

/// The rank of an interface with that name and address.
pub open spec fn rank_of(name: Seq<char>, octets: Seq<u8>, prefix: u8) -> Rank {
    Rank { interface_type: interface_type(name), subnet: subnet_type(octets), prefix }
}

/// The rank of an interface with that name and address.
pub fn interface_rank(name: &str, octets: &[u8; 4], prefix: u8) -> (rank: Rank)
    ensures
        rank == rank_of(name@, octets@, prefix),
{
    let lowered = text::lower_chars(name);
    let lowered = text::text_of(lowered.as_slice(), 0, lowered.len());
    let lowered = lowered.as_str();
    assert(lowered@ =~= text::lower_text(name@));
    let interface_type = if text::starts_with(lowered, "en") || text::starts_with(lowered, "eth")
        || text::starts_with(lowered, "wlan") || text::starts_with(lowered, "wl") {
        0
    } else if text::starts_with(lowered, "utun") || text::starts_with(lowered, "tun")
        || text::starts_with(lowered, "tap") || text::starts_with(lowered, "docker")
        || text::starts_with(lowered, "bridge") || text::starts_with(lowered, "veth") {
        2
    } else {
        1
    };
    let subnet = if octets[0] == 192 && octets[1] == 168 {
        0
    } else if octets[0] == 172 && 16 <= octets[1] && octets[1] <= 31 {
        1
    } else if octets[0] == 10 {
        2
    } else {
        3
    };
    Rank { interface_type, subnet, prefix }
}

/// Whether others in the local network can reach the machine through the interface, and it is the
/// wanted one where one is wanted.
pub open spec fn is_usable(interface: Interface, wanted: Option<Seq<char>>) -> bool {
    &&& interface.up
    &&& !interface.loopback
    &&& !interface.link_local
    &&& !interface.point_to_point
    &&& interface.v4 is Some
    &&& wanted matches Some(wanted) ==> wanted == interface.name@
}

/// The rank of an interface that has an address.
pub open spec fn rank_at(interfaces: Seq<Interface>, i: int) -> Rank {
    rank_of(interfaces[i].name@, interfaces[i].v4->0@, interfaces[i].prefix)
}

/// Whether the interface is the one to choose: of those that can be used no other stands before it,
/// and of those that rank with it, it comes first.
pub open spec fn is_choice(
    interfaces: Seq<Interface>,
    wanted: Option<Seq<char>>,
    i: int,
) -> bool {
    &&& 0 <= i < interfaces.len()
    &&& is_usable(interfaces[i], wanted)
    &&& forall|j: int|
        0 <= j < interfaces.len() && is_usable(#[trigger] interfaces[j], wanted) && j != i ==> {
            &&& !before(rank_at(interfaces, j), rank_at(interfaces, i))
            &&& j < i ==> before(rank_at(interfaces, i), rank_at(interfaces, j))
        }
}

fn usable(interface: &Interface, wanted: &Option<String>) -> (yes: bool)
    ensures
        yes == is_usable(*interface, text::optional(*wanted)),
{
    let is_wanted = match wanted {
        Some(name) => text::same_text(name.as_str(), interface.name.as_str()),
        None => true,
    };
    interface.up && !interface.loopback && !interface.link_local && !interface.point_to_point
        && interface.v4.is_some() && is_wanted
}

fn choose_interface(interfaces: &[Interface], wanted: &Option<String>) -> (chosen: Option<usize>)
    ensures
        match chosen {
            Some(i) => is_choice(interfaces@, text::optional(*wanted), i as int),
            None => forall|i: int|
                0 <= i < interfaces@.len() ==> !is_usable(
                    #[trigger] interfaces@[i],
                    text::optional(*wanted),
                ),
        },
{
    let mut chosen: Option<usize> = None;
    let ghost all = interfaces@;
    let ghost name = text::optional(*wanted);
    let mut i: usize = 0;
    while i < interfaces.len()
        invariant
            i <= interfaces@.len(),
            all == interfaces@,
            name == text::optional(*wanted),
            match chosen {
                Some(k) => {
                    &&& k < i
                    &&& is_choice(all.take(i as int), name, k as int)
                },
                None => forall|j: int|
                    0 <= j < i ==> !is_usable(#[trigger] all[j], name),
            },
        decreases interfaces@.len() - i,
    {
        let ghost seen = all.take(i as int);
        let ghost longer = all.take(i + 1);
        let ghost earlier = chosen;
        if usable(&interfaces[i], wanted) {
            if let Some(octets) = &interfaces[i].v4 {
                let rank = interface_rank(
                    interfaces[i].name.as_str(),
                    octets,
                    interfaces[i].prefix,
                );
                chosen = match chosen {
                    None => Some(i),
                    Some(k) => match &interfaces[k].v4 {
                        Some(best) => {
                            let best = interface_rank(
                                interfaces[k].name.as_str(),
                                best,
                                interfaces[k].prefix,
                            );
                            if stands_before(rank, best) {
                                Some(i)
                            } else {
                                Some(k)
                            }
                        },
                        None => Some(k),
                    },
                };
            }
        }
        proof {
            assert(forall|j: int| 0 <= j < i ==> seen[j] == all[j] && longer[j] == all[j]);
            assert(longer[i as int] == all[i as int]);
            if chosen is Some {
                let k = chosen->0 as int;
                assert forall|j: int|
                    0 <= j < longer.len() && is_usable(#[trigger] longer[j], name) && j
                        != k implies {
                    &&& !before(rank_at(longer, j), rank_at(longer, k))
                    &&& j < k ==> before(rank_at(longer, k), rank_at(longer, j))
                } by {
                    if j < i {
                        assert(is_usable(seen[j], name));
                        if earlier is Some {
                            assert(is_usable(seen[earlier->0 as int], name));
                            if j != earlier->0 {
                                assert(!before(rank_at(seen, j), rank_at(seen, earlier->0 as int)));
                            }
                        } else {
                            assert(!is_usable(all[j], name));
                        }
                    }
                }
            }
        }
        i += 1;
    }
    assert(all.take(i as int) =~= all);
    chosen
}

/// The address of a host that is given in the settings.
pub open spec fn given_host(host: HostAddress) -> HostInfoView {
    HostInfoView {
        network_prefix_length: prefix_of(host.v6),
        host_address: host.text@,
        last_seen: 0,
    }
}

/// Whether these are the addresses to tell: the one in the settings, or the one that the server
/// listens at, or that of the interface to choose; none where no interface can be used.
pub open spec fn are_server_hosts(
    hosts: Seq<HostInfoView>,
    config: Config,
    interfaces: Seq<Interface>,
) -> bool {
    let wanted = text::optional(config.network_interface);
    match config.public_host {
        Some(host) => hosts == seq![given_host(host)],
        None => if !config.listen.unspecified {
            hosts == seq![given_host(config.listen.host)]
        } else if hosts.len() == 0 {
            forall|i: int|
                0 <= i < interfaces.len() ==> !is_usable(#[trigger] interfaces[i], wanted)
        } else {
            exists|i: int| #[trigger]
                is_choice(interfaces, wanted, i) && hosts == seq![
                    HostInfoView {
                        network_prefix_length: interfaces[i].prefix as i16,
                        host_address: dotted(interfaces[i].v4->0@),
                        last_seen: 0,
                    },
                ]
        },
    }
}

fn one_host(prefix: i16, address: String) -> (hosts: Vec<HostInfo>)
    ensures
        host_views(hosts@) == seq![
            HostInfoView {
                network_prefix_length: prefix,
                host_address: address@,
                last_seen: 0,
            },
        ],
{
    let mut hosts: Vec<HostInfo> = Vec::new();
    hosts.push(HostInfo { network_prefix_length: prefix, host_address: address, last_seen: 0 });
    assert(host_views(hosts@) =~= seq![hosts@[0]@]);
    hosts
}

/// The addresses that the server tells of itself.
pub fn server_host_infos(config: &Config, interfaces: &[Interface]) -> (hosts: Vec<HostInfo>)
    ensures
        are_server_hosts(host_views(hosts@), *config, interfaces@),
{
    if let Some(host) = &config.public_host {
        return one_host(default_prefix(host), host.text.clone());
    }
    if !config.listen.unspecified {
        return one_host(default_prefix(&config.listen.host), config.listen.host.text.clone());
    }
    match choose_interface(interfaces, &config.network_interface) {
        Some(i) => match &interfaces[i].v4 {
            Some(octets) => {
                let hosts = one_host(interfaces[i].prefix as i16, dotted_text(octets));
                assert(is_choice(
                    interfaces@,
                    text::optional(config.network_interface),
                    i as int,
                ));
                hosts
            },
            None => Vec::new(),
        },
        None => {
            let hosts: Vec<HostInfo> = Vec::new();
            assert(host_views(hosts@).len() == 0);
            hosts
        },
    }
}

/// What the server tells clients about itself, on a machine with that operating system and those
/// interfaces.
pub fn build_server_sync_info(
    config: &Config,
    os: &str,
    arch: &str,
    interfaces: &[Interface],
) -> (info: SyncInfo)
    ensures
        info@.app_info == (AppInfoView {
            app_instance_id: config.server_instance_id@,
            app_version: RELAY_VERSION@,
            app_revision: APP_REVISION@,
            user_name: config.server_user_name@,
            pairing_version: Some(PAIRING_VERSION),
        }),
        info@.endpoint_info.device_id == config.server_instance_id@,
        info@.endpoint_info.device_name == config.server_device_name@,
        info@.endpoint_info.platform == (PlatformInfoView {
            name: platform(os@),
            arch: arch@,
            bit_mode: usize::BITS as i32,
            version: os@,
        }),
        info@.endpoint_info.port == config.listen.port,
        are_server_hosts(info@.endpoint_info.host_info_list, *config, interfaces@),
{
    SyncInfo {
        app_info: AppInfo {
            app_instance_id: config.server_instance_id.clone(),
            app_version: RELAY_VERSION.to_owned(),
            app_revision: APP_REVISION.to_owned(),
            user_name: config.server_user_name.clone(),
            pairing_version: Some(PAIRING_VERSION),
        },
        endpoint_info: EndpointInfo {
            device_id: config.server_instance_id.clone(),
            device_name: config.server_device_name.clone(),
            platform: PlatformInfo {
                name: platform_name(os).to_owned(),
                arch: arch.to_owned(),
                bit_mode: usize::BITS as i32,
                version: os.to_owned(),
            },
            host_info_list: server_host_infos(config, interfaces),
            port: config.listen.port as i32,
        },
    }
}

/// Sync information, given as JSON, in the form of a header. Decoding the header gives the JSON
/// again.
pub fn encode_sync_info_header(json: &[u8]) -> (header: String)
    ensures
        header@ == codec::base64_encoded(json@),
        (codec::base64_decoded(header@) == Ok::<Seq<u8>, Seq<char>>(json@)),
{
    codec::base64_encode(json)
}

/// The values of a TXT record in order.
pub open spec fn record_values(record: Seq<(String, String)>) -> Seq<Seq<char>> {
    record.map_values(|entry: (String, String)| entry.1@)
}

/// Sync information, given as JSON, in the form of a TXT record: its Base64 in pieces of that size,
/// numbered from 0 on.
pub fn encode_txt_record(json: &[u8], chunk_size: usize) -> (record: Vec<(String, String)>)
    requires
        chunk_size > 0,
    ensures
        record_values(record@) == pieces::pieces(codec::base64_encoded(json@), chunk_size as nat),
        forall|i: int|
            0 <= i < record@.len() ==> (#[trigger] record@[i]).0@ == text::decimal(i),
        (codec::base64_decoded(pieces::joined(record_values(record@))) == Ok::<Seq<u8>, Seq<char>>(json@)),
{
    let encoded = codec::base64_encode(json);
    let chars = text::chars_of(encoded.as_str());
    let ghost whole = encoded@;
    let ghost size = chunk_size as nat;
    let mut record: Vec<(String, String)> = Vec::new();
    let mut start: usize = 0;
    assert(whole.skip(0) =~= whole);
    assert(record_values(record@) + pieces::pieces(whole, size) =~= pieces::pieces(whole, size));
    while start < chars.len()
        invariant
            start <= chars@.len(),
            chunk_size > 0,
            size == chunk_size,
            chars@ == whole,
            record@.len() <= start,
            record_values(record@) + pieces::pieces(whole.skip(start as int), size) == pieces::pieces(whole, size),
            forall|i: int|
                0 <= i < record@.len() ==> (#[trigger] record@[i]).0@ == text::decimal(i),
        decreases chars@.len() - start,
    {
        let end = if chars.len() - start <= chunk_size {
            chars.len()
        } else {
            start + chunk_size
        };
        let ghost done = record_values(record@);
        let ghost left = whole.skip(start as int);
        let piece = text::text_of(chars.as_slice(), start, end);
        record.push((text::unsigned_text(record.len() as u64), piece));
        proof {
            assert(record_values(record@) =~= done.push(piece@));
            if end == chars@.len() {
                assert(piece@ =~= left);
                assert(whole.skip(end as int) =~= Seq::empty());
            } else {
                assert(piece@ =~= left.take(size as int));
                assert(whole.skip(end as int) =~= left.skip(size as int));
            }
            assert(record_values(record@) + pieces::pieces(whole.skip(end as int), size) =~= pieces::pieces(
                whole,
                size,
            ));
        }
        start = end;
    }
    proof {
        assert(whole.skip(start as int) =~= Seq::empty());
        assert(record_values(record@) =~= pieces::pieces(whole, size));
        pieces::law_pieces_join(whole, size);
    }
    record
}

/// The bytes with the last `offset` of them moved to the front.
pub open spec fn rotated(bytes: Seq<u8>, offset: int) -> Seq<u8> {
    if bytes.len() == 0 {
        bytes
    } else {
        bytes.skip(bytes.len() - offset) + bytes.take(bytes.len() - offset)
    }
}

/// The bytes with the last `offset` of them moved to the front.
pub fn rotate_right(bytes: &[u8], offset: usize) -> (result: Vec<u8>)
    requires
        bytes@.len() == 0 || offset <= bytes@.len(),
    ensures
        result@ == rotated(bytes@, offset as int),
{
    if bytes.len() == 0 {
        return bytes::copy(bytes);
    }
    let cut = bytes.len() - offset;
    let mut result = bytes::copy(bytes::part(bytes, cut, bytes.len()));
    bytes::extend(&mut result, bytes::part(bytes, 0, cut));
    assert(result@ =~= rotated(bytes@, offset as int));
    result
}

/// Rotating back by what is left of the length undoes a rotation.
pub proof fn law_rotation_undone(bytes: Seq<u8>, offset: int)
    requires
        0 <= offset < bytes.len(),
    ensures
        rotated(rotated(bytes, offset), (bytes.len() - offset) % (bytes.len() as int)) == bytes,
{
    if offset == 0 {
        assert((bytes.len() - offset) % (bytes.len() as int) == 0) by (nonlinear_arith)
            requires
                offset == 0,
                bytes.len() > 0,
        ;
        assert(rotated(bytes, 0) =~= bytes);
    } else {
        assert((bytes.len() - offset) % (bytes.len() as int) == bytes.len() - offset)
            by (nonlinear_arith)
            requires
                0 < offset < bytes.len(),
        ;
        assert(rotated(rotated(bytes, offset), bytes.len() - offset) =~= bytes);
    }
}

/// The bytes of the code that clients scan: the JSON, rotated by the token, and the token.
pub open spec fn qr_bytes(json: Seq<u8>, token: u32) -> Seq<u8> {
    if json.len() == 0 {
        bytes::be32_bytes(token)
    } else {
        rotated(json, token as int % (json.len() as int)) + bytes::be32_bytes(token)
    }
}

/// Why scanned text is not a server's code.
#[derive(Debug, Clone, PartialEq, Eq)]
pub enum QrPayloadError {
    /// It is not Base64; the words say why.
    Encoding(String),
    /// It has no room for a token and sync information.
    TooShort,
}

/// A [`QrPayloadError`] with its words by their characters.
#[verifier::ext_equal]
pub enum QrPayloadErrorView {
    Encoding(Seq<char>),
    TooShort,
}

impl View for QrPayloadError {
    type V = QrPayloadErrorView;

    open spec fn view(&self) -> QrPayloadErrorView {
        match self {
            QrPayloadError::Encoding(words) => QrPayloadErrorView::Encoding(words@),
            QrPayloadError::TooShort => QrPayloadErrorView::TooShort,
        }
    }
}

impl QrPayloadErrorView {
    /// The error in words.
    pub open spec fn words(self) -> Seq<char> {
        match self {
            QrPayloadErrorView::Encoding(words) => words,
            QrPayloadErrorView::TooShort => "QR payload too short"@,
        }
    }
}

impl QrPayloadError {
    /// The error in words.
    pub fn message(&self) -> (text: String)
        ensures
            text@ == self@.words(),
    {
        match self {
            QrPayloadError::Encoding(words) => words.clone(),
            QrPayloadError::TooShort => "QR payload too short".to_owned(),
        }
    }
}

/// The JSON and the token in what scanned text decodes to.
pub open spec fn qr_content(decoded: Result<Seq<u8>, Seq<char>>) -> Result<
    (Seq<u8>, u32),
    QrPayloadErrorView,
> {
    match decoded {
        Err(words) => Err(QrPayloadErrorView::Encoding(words)),
        Ok(decoded) => if decoded.len() < 5 {
            Err(QrPayloadErrorView::TooShort)
        } else {
            let len = decoded.len() - 4;
            let token = bytes::be32_value(decoded.skip(len)) as u32;
            Ok((rotated(decoded.take(len), (len - token as int % len) % len), token))
        },
    }
}

/// Scanned content by its views.
pub open spec fn content_view(content: Result<(Vec<u8>, u32), QrPayloadError>) -> Result<
    (Seq<u8>, u32),
    QrPayloadErrorView,
> {
    match content {
        Ok(content) => Ok((content.0@, content.1)),
        Err(error) => Err(error@),
    }
}

/// A code with sync information in it gives back what was put in.
pub proof fn law_qr_round_trip(json: Seq<u8>, token: u32)
    requires
        json.len() > 0,
    ensures
        qr_content(Ok::<Seq<u8>, Seq<char>>(qr_bytes(json, token))) == Ok::<
            (Seq<u8>, u32),
            QrPayloadErrorView,
        >((json, token)),
{
    let offset = token as int % (json.len() as int);
    let whole = qr_bytes(json, token);
    let len = whole.len() - 4;
    bytes::lemma_be32_round_trip(token);
    assert(whole.skip(len) =~= bytes::be32_bytes(token));
    assert(whole.take(len) =~= rotated(json, offset));
    assert(0 <= offset < json.len()) by (nonlinear_arith)
        requires
            offset == token as int % (json.len() as int),
            json.len() > 0,
    ;
    law_rotation_undone(json, offset);
}

/// Sync information, given as JSON, and a token in the form of the code that clients scan.
pub fn encode_qr_payload(json: &[u8], token: u32) -> (payload: String)
    ensures
        payload@ == codec::base64_encoded(qr_bytes(json@, token)),
        (json@.len() > 0 ==> qr_content(codec::base64_decoded(payload@)) == Ok::<
            (Seq<u8>, u32),
            QrPayloadErrorView,
        >((json@, token))),
{
    let mut payload: Vec<u8> = Vec::new();
    if json.len() > 0 {
        let offset = token as usize % json.len();
        payload = rotate_right(json, offset);
    }
    bytes::push_be32(&mut payload, token);
    assert(payload@ =~= qr_bytes(json@, token));
    proof {
        if json@.len() > 0 {
            law_qr_round_trip(json@, token);
        }
    }
    codec::base64_encode(payload.as_slice())
}

/// The JSON and the token in what scanned text decodes to.
pub fn qr_content_of(decoded: Result<Vec<u8>, String>) -> (content: Result<
    (Vec<u8>, u32),
    QrPayloadError,
>)
    ensures
        content_view(content) == qr_content(
            match decoded {
                Ok(decoded) => Ok::<Seq<u8>, Seq<char>>(decoded@),
                Err(words) => Err::<Seq<u8>, Seq<char>>(words@),
            },
        ),
{
    match decoded {
        Err(words) => Err(QrPayloadError::Encoding(words)),
        Ok(decoded) => {
            if decoded.len() < 5 {
                return Err(QrPayloadError::TooShort);
            }
            let len = decoded.len() - 4;
            let token = bytes::be32_at(decoded.as_slice(), len);
            let rotated_bytes = bytes::part(decoded.as_slice(), 0, len);
            assert(rotated_bytes@ =~= decoded@.take(len as int));
            assert(decoded@.skip(len as int) =~= decoded@.subrange(len as int, len + 4));
            let offset = token as usize % len;
            let json = rotate_right(rotated_bytes, (len - offset) % len);
            Ok((json, token))
        },
    }
}

/// The JSON and the token in scanned text.
pub fn decode_qr_payload(encoded: &str) -> (content: Result<(Vec<u8>, u32), QrPayloadError>)
    ensures
        content_view(content) == qr_content(codec::base64_decoded(encoded@)),
{
    qr_content_of(codec::base64_decode(encoded))
}

/// Rotating moves each byte as many places on as the offset says, round the end.
pub proof fn law_rotation_moves(bytes: Seq<u8>, offset: int, place: int)
    requires
        0 <= offset < bytes.len(),
        0 <= place < bytes.len(),
    ensures
        rotated(bytes, offset).len() == bytes.len(),
        place + offset < bytes.len() ==> rotated(bytes, offset)[place + offset] == bytes[place],
        place + offset >= bytes.len() ==> rotated(bytes, offset)[place + offset - bytes.len()]
            == bytes[place],
{
}

/// The code that clients scan holds each byte of the JSON, as many places on as the token says,
/// counted round its length; the four bytes after it spell the token.
pub proof fn law_qr_bytes(json: Seq<u8>, token: u32, place: int, moved: int)
    requires
        0 <= place < json.len(),
        0 <= moved < json.len(),
        (place + token - moved) % (json.len() as int) == 0,
    ensures
        qr_bytes(json, token).len() == json.len() + 4,
        qr_bytes(json, token)[moved] == json[place],
        bytes::be32_value(qr_bytes(json, token).skip(json.len() as int)) == token,
{
    let len = json.len() as int;
    let offset = token as int % len;
    let turns = token as int / len;
    let rest = (place + token - moved) / len;
    assert(0 <= offset < len && token == turns * len + offset) by (nonlinear_arith)
        requires
            offset == token as int % len,
            turns == token as int / len,
            len > 0,
            token >= 0,
    ;
    assert(place + token - moved == rest * len) by (nonlinear_arith)
        requires
            rest == (place + token - moved) / len,
            (place + token - moved) % len == 0,
            len > 0,
    ;
    let left = rest - turns;
    assert(place + offset - moved == left * len) by (nonlinear_arith)
        requires
            place + token - moved == rest * len,
            token == turns * len + offset,
            left == rest - turns,
    ;
    assert(left == 0 || left == 1) by (nonlinear_arith)
        requires
            place + offset - moved == left * len,
            -len < place + offset - moved < 2 * len,
            len > 0,
    ;
    if left == 0 {
        assert(0 * len == 0) by (nonlinear_arith);
    } else {
        assert(1 * len == len) by (nonlinear_arith);
    }
    law_rotation_moves(json, offset, place);
    bytes::lemma_be32_round_trip(token);
    assert(qr_bytes(json, token).skip(len) =~= bytes::be32_bytes(token));
}

/// Scanned text with fewer than five bytes in it is too short, and so is no code.
pub proof fn law_short_code(decoded: Seq<u8>)
    ensures
        qr_content(Ok(decoded)) is Ok <==> decoded.len() >= 5,
        qr_content(Ok(decoded)) matches Ok((json, token)) ==> json.len() == decoded.len() - 4
            && token == bytes::be32_value(decoded.skip(decoded.len() - 4)),
{
    if decoded.len() >= 5 {
        let len = decoded.len() - 4;
        let four = decoded.skip(len);
        let value = bytes::be32_value(four);
        assert(0 <= value <= u32::MAX);
        let token = value as u32;
        assert(0 <= (len - token as int % len) % len < len) by (nonlinear_arith)
            requires
                len > 0,
        ;
    }
}

/// A name stands for a wired or wireless interface, or for one that leads through other software, by
/// how it begins, whatever its case.
pub proof fn law_interface_type(name: Seq<char>)
    ensures
        ({
            let low = text::lower_text(name);
            let direct = {
                ||| low.len() >= 2 && low[0] == 'e' && low[1] == 'n'
                ||| low.len() >= 3 && low[0] == 'e' && low[1] == 't' && low[2] == 'h'
                ||| low.len() >= 2 && low[0] == 'w' && low[1] == 'l'
            };
            let indirect = {
                ||| low.len() >= 4 && low.take(4) == seq!['u', 't', 'u', 'n']
                ||| low.len() >= 3 && low.take(3) == seq!['t', 'u', 'n']
                ||| low.len() >= 3 && low.take(3) == seq!['t', 'a', 'p']
                ||| low.len() >= 6 && low.take(6) == seq!['d', 'o', 'c', 'k', 'e', 'r']
                ||| low.len() >= 6 && low.take(6) == seq!['b', 'r', 'i', 'd', 'g', 'e']
                ||| low.len() >= 4 && low.take(4) == seq!['v', 'e', 't', 'h']
            };
            &&& interface_type(name) == 0 <==> direct
            &&& interface_type(name) == 2 <==> indirect
            &&& interface_type(name) <= 2
        }),
{
    reveal_strlit("en");
    reveal_strlit("eth");
    reveal_strlit("wlan");
    reveal_strlit("wl");
    reveal_strlit("utun");
    reveal_strlit("tun");
    reveal_strlit("tap");
    reveal_strlit("docker");
    reveal_strlit("bridge");
    reveal_strlit("veth");
    let low = text::lower_text(name);
    text::law_stands_at(low, 0, "en"@);
    text::law_stands_at(low, 0, "eth"@);
    text::law_stands_at(low, 0, "wlan"@);
    text::law_stands_at(low, 0, "wl"@);
    assert("utun"@ =~= seq!['u', 't', 'u', 'n']);
    assert("tun"@ =~= seq!['t', 'u', 'n']);
    assert("tap"@ =~= seq!['t', 'a', 'p']);
    assert("docker"@ =~= seq!['d', 'o', 'c', 'k', 'e', 'r']);
    assert("bridge"@ =~= seq!['b', 'r', 'i', 'd', 'g', 'e']);
    assert("veth"@ =~= seq!['v', 'e', 't', 'h']);
    let direct = {
        ||| low.len() >= 2 && low[0] == 'e' && low[1] == 'n'
        ||| low.len() >= 3 && low[0] == 'e' && low[1] == 't' && low[2] == 'h'
        ||| low.len() >= 2 && low[0] == 'w' && low[1] == 'l'
    };
    assert("en"@[0] == 'e' && "en"@[1] == 'n');
    assert("eth"@[0] == 'e' && "eth"@[1] == 't' && "eth"@[2] == 'h');
    assert("wl"@[0] == 'w' && "wl"@[1] == 'l');
    assert("wlan"@[0] == 'w' && "wlan"@[1] == 'l');
    assert((interface_type(name) == 0) == direct);
    if low.len() >= 4 {
        assert(low.take(4)[0] == low[0] && low.take(4)[1] == low[1]);
    }
    if low.len() >= 3 {
        assert(low.take(3)[0] == low[0]);
    }
    if low.len() >= 6 {
        assert(low.take(6)[0] == low[0]);
    }
}

/// The networks of homes come first, then those of offices, then the large private one, and then all
/// others.
pub proof fn law_subnet_type(octets: Seq<u8>)
    ensures
        subnet_type(octets) == 0 <==> octets[0] == 192 && octets[1] == 168,
        subnet_type(octets) == 1 <==> octets[0] == 172 && octets[1] / 16 == 1,
        subnet_type(octets) == 2 <==> octets[0] == 10,
        subnet_type(octets) <= 3,
{
    let second = octets[1];
    assert(16 <= second <= 31 <==> second / 16 == 1) by (bit_vector);
}

/// Of two interfaces one stands before the other unless they rank alike: first by sort, then by
/// network, and then the one with the longer prefix.
pub proof fn law_rank_order(a: Rank, b: Rank, c: Rank)
    ensures
        !(before(a, b) && before(b, a)),
        before(a, b) && before(b, c) ==> before(a, c),
        !before(a, b) && !before(b, a) ==> a == b,
        a.interface_type < b.interface_type ==> before(a, b),
        a.interface_type == b.interface_type && a.subnet < b.subnet ==> before(a, b),
        a.interface_type == b.interface_type && a.subnet == b.subnet && a.prefix > b.prefix
            ==> before(a, b),
{
}

/// An interface is used only where it is up, has an address, and others can reach the machine
/// through it; where one is asked for by name, no other is used.
pub proof fn law_usable(interface: Interface, wanted: Option<Seq<char>>)
    ensures
        is_usable(interface, wanted) <==> {
            &&& interface.up && interface.v4 is Some
            &&& !(interface.loopback || interface.link_local || interface.point_to_point)
            &&& wanted is None || wanted->0 == interface.name@
        },
{
}

/// There is one interface to choose at most: no other that can be used stands before it, nor ranks
/// with it and comes first.
pub proof fn law_one_choice(
    interfaces: Seq<Interface>,
    wanted: Option<Seq<char>>,
    i: int,
    j: int,
)
    requires
        is_choice(interfaces, wanted, i),
        0 <= j < interfaces.len(),
        is_usable(interfaces[j], wanted),
    ensures
        is_usable(interfaces[i], wanted),
        !before(
            rank_of(interfaces[j].name@, interfaces[j].v4->0@, interfaces[j].prefix),
            rank_of(interfaces[i].name@, interfaces[i].v4->0@, interfaces[i].prefix),
        ),
        is_choice(interfaces, wanted, j) ==> j == i,
{
}

/// The server tells the address in the settings; without one, the address that it listens at; and
/// where that stands for every address, that of the interface to choose.
pub proof fn law_server_hosts(
    hosts: Seq<HostInfoView>,
    config: Config,
    interfaces: Seq<Interface>,
    i: int,
)
    requires
        are_server_hosts(hosts, config, interfaces),
    ensures
        hosts.len() <= 1,
        config.public_host matches Some(host) ==> {
            &&& hosts.len() == 1
            &&& hosts[0].host_address == host.text@
            &&& hosts[0].network_prefix_length == (if host.v6 {
                64i16
            } else {
                24i16
            })
        },
        config.public_host is None && !config.listen.unspecified ==> {
            &&& hosts.len() == 1
            &&& hosts[0].host_address == config.listen.host.text@
            &&& hosts[0].network_prefix_length == (if config.listen.host.v6 {
                64i16
            } else {
                24i16
            })
        },
        config.public_host is None && config.listen.unspecified ==> {
            let wanted = text::optional(config.network_interface);
            &&& is_choice(interfaces, wanted, i) ==> {
                &&& hosts.len() == 1
                &&& hosts[0].host_address == dotted(interfaces[i].v4->0@)
                &&& hosts[0].network_prefix_length == interfaces[i].prefix as i16
            }
            &&& (forall|j: int|
                0 <= j < interfaces.len() ==> !is_usable(#[trigger] interfaces[j], wanted))
                ==> hosts.len() == 0
        },
{
    let wanted = text::optional(config.network_interface);
    if config.public_host is None && config.listen.unspecified && hosts.len() > 0 {
        let k = choose|k: int| #[trigger]
            is_choice(interfaces, wanted, k) && hosts == seq![
                HostInfoView {
                    network_prefix_length: interfaces[k].prefix as i16,
                    host_address: dotted(interfaces[k].v4->0@),
                    last_seen: 0,
                },
            ];
        if is_choice(interfaces, wanted, i) {
            law_one_choice(interfaces, wanted, i, k);
        }
        assert(is_usable(interfaces[k], wanted));
    }
}

/// An address in text is its four numbers in order, with a dot between each two.
pub proof fn law_dotted(octets: Seq<u8>)
    ensures
        ({
            let (a, b) = (text::decimal(octets[0] as int), text::decimal(octets[1] as int));
            let (c, d) = (text::decimal(octets[2] as int), text::decimal(octets[3] as int));
            let (x, y) = (a.len() as int, a.len() as int + 1 + b.len() as int);
            let z = y + 1 + c.len() as int;
            let whole = dotted(octets);
            &&& whole.len() == z + 1 + d.len()
            &&& whole.take(x) == a
            &&& whole[x] == '.'
            &&& whole.subrange(x + 1, y) == b
            &&& whole[y] == '.'
            &&& whole.subrange(y + 1, z) == c
            &&& whole[z] == '.'
            &&& whole.skip(z + 1) == d
        }),
{
    reveal_strlit(".");
    let (a, b) = (text::decimal(octets[0] as int), text::decimal(octets[1] as int));
    let (c, d) = (text::decimal(octets[2] as int), text::decimal(octets[3] as int));
    let (x, y) = (a.len() as int, a.len() as int + 1 + b.len() as int);
    let z = y + 1 + c.len() as int;
    let whole = dotted(octets);
    assert(whole.take(x) =~= a);
    assert(whole.subrange(x + 1, y) =~= b);
    assert(whole.subrange(y + 1, z) =~= c);
    assert(whole.skip(z + 1) =~= d);
}

/// An operating system that CrossPaste does not know is told as unknown.
pub proof fn law_platform(os: Seq<char>)
    ensures
        platform(os) == "Macos"@ <==> os == "macos"@,
        platform(os) == "Windows"@ <==> os == "windows"@,
        platform(os) == "Linux"@ <==> os == "linux"@,
        platform(os) == "Unknown"@ <==> os != "macos"@ && os != "windows"@ && os != "linux"@,
{
    reveal_strlit("Macos");
    reveal_strlit("Windows");
    reveal_strlit("Linux");
    reveal_strlit("Unknown");
    assert("Macos"@[0] == 'M' && "Windows"@[0] == 'W' && "Linux"@[0] == 'L' && "Unknown"@[0]
        == 'U');
    reveal_strlit("macos");
    reveal_strlit("windows");
    reveal_strlit("linux");
    assert("macos"@[0] == 'm' && "windows"@[0] == 'w' && "linux"@[0] == 'l');
}

/// What was scanned is told as it was read, and why it could not be read as that.
pub proof fn law_content_view(json: Vec<u8>, token: u32, error: QrPayloadError, words: Seq<char>)
    ensures
        content_view(Ok((json, token))) is Ok,
        content_view(Ok((json, token)))->Ok_0 == (json@, token),
        content_view(Err(error)) is Err,
        content_view(Err(error))->Err_0 == error@,
        qr_content(Err(words)) is Err,
        qr_content(Err(words))->Err_0.words() == words,
{
}

} // verus!
