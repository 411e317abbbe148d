//! How the server announces itself in the local network.
use vstd::prelude::*;

use crate::config::Config;
use crate::pieces;
use crate::sync_info;
use crate::sync_info::{encode_txt_record, HostInfoView, SyncInfo};
use crate::text;

verus! {

/// The service type under which CrossPaste devices find each other.
pub const CROSSPASTE_SERVICE_TYPE: &'static str = "_crosspasteService._tcp.local.";

/// How many characters of the TXT record go into one of its values.
pub const TXT_CHUNK_SIZE: usize = 128;

/// The label of a host whose name leaves nothing to make one of.
pub const FALLBACK_LABEL: &'static str = "crosspaste-server";

/// Why the server could not announce itself.
#[derive(Debug, Clone, Copy, PartialEq, Eq, Structural)]
pub enum DiscoveryError {
    /// The server has no address to announce.
    NoInterface,
    /// No address could be announced.
    NoneRegistered,
}

/// The error in words.
pub open spec fn discovery_words(error: DiscoveryError) -> Seq<char> {
    match error {
        DiscoveryError::NoInterface => {
            "no routable network interface found; set CROSSPASTE_SERVER_PUBLIC_HOST"@
        },
        DiscoveryError::NoneRegistered => "failed to register mDNS on all interfaces"@,
    }
}

impl DiscoveryError {
    /// The error in words.
    pub fn message(&self) -> (words: &'static str)
        ensures
            words@ == discovery_words(*self),
    {
        match self {
            DiscoveryError::NoInterface => {
                "no routable network interface found; set CROSSPASTE_SERVER_PUBLIC_HOST"
            },
            DiscoveryError::NoneRegistered => "failed to register mDNS on all interfaces",
        }
    }
}

/// A character as it stands in a host label.
pub open spec fn label_char(c: char) -> char {
    if text::is_alphanumeric(c) || c == '-' {
        c
    } else {
        '-'
    }
}

/// The text without the hyphens at its beginning.
pub open spec fn without_first_hyphens(text: Seq<char>) -> Seq<char>
    decreases text.len(),
{
    if text.len() > 0 && text[0] == '-' {
        without_first_hyphens(text.drop_first())
    } else {
        text
    }
}

/// The text without the hyphens at its end.
pub open spec fn without_last_hyphens(text: Seq<char>) -> Seq<char>
    decreases text.len(),
{
    if text.len() > 0 && text.last() == '-' {
        without_last_hyphens(text.drop_last())
    } else {
        text
    }
}

/// The label that stands for a name: its letters and digits, hyphens for all else, and none of
/// those at the ends.
pub open spec fn host_label(value: Seq<char>) -> Seq<char> {
    let mapped = value.map_values(|c: char| label_char(c));
    let label = without_last_hyphens(without_first_hyphens(mapped));
    if label.len() == 0 {
        FALLBACK_LABEL@
    } else {
        label
    }
}

/// The label that stands for a name.
pub fn sanitize_host_label(value: &str) -> (label: String)
    ensures
        label@ == host_label(value@),
{
    let chars = text::chars_of(value);
    let ghost mapped = value@.map_values(|c: char| label_char(c));
    let mut label: Vec<char> = Vec::new();
    let mut i: usize = 0;
    while i < chars.len()
        invariant
            i <= chars@.len(),
            chars@ == value@,
            mapped == value@.map_values(|c: char| label_char(c)),
            label@ == mapped.take(i as int),
        decreases chars@.len() - i,
    {
        let c = chars[i];
        if text::alphanumeric(c) || c == '-' {
            label.push(c);
        } else {
            label.push('-');
        }
        i += 1;
        assert(mapped.take(i as int) =~= mapped.take(i - 1).push(mapped[i - 1]));
    }
    assert(label@ =~= mapped);
    let mut start: usize = 0;
    assert(mapped.skip(0) =~= mapped);
    while start < label.len() && label[start] == '-'
        invariant
            start <= label@.len(),
            label@ == mapped,
            without_first_hyphens(mapped.skip(start as int)) == without_first_hyphens(mapped),
        decreases label@.len() - start,
    {
        assert(mapped.skip(start as int).drop_first() =~= mapped.skip(start + 1));
        start += 1;
    }
    let ghost rest = mapped.skip(start as int);
    assert(without_first_hyphens(mapped) == rest);
    let mut end: usize = label.len();
    assert(mapped.subrange(start as int, end as int) =~= rest);
    while end > start && label[end - 1] == '-'
        invariant
            start <= end <= label@.len(),
            label@ == mapped,
            without_last_hyphens(mapped.subrange(start as int, end as int))
                == without_last_hyphens(rest),
        decreases end - start,
    {
        assert(mapped.subrange(start as int, end as int).drop_last() =~= mapped.subrange(
            start as int,
            end - 1,
        ));
        end -= 1;
    }
    if start == end {
        FALLBACK_LABEL.to_owned()
    } else {
        text::text_of(label.as_slice(), start, end)
    }
}

/// An address as it stands in the name of a service: underscores for dots and colons.
pub open spec fn underscored(address: Seq<char>) -> Seq<char> {
    address.map_values(
        |c: char|
            if c == '.' || c == ':' {
                '_'
            } else {
                c
            },
    )
}

fn underscore(address: &str) -> (name: String)
    ensures
        name@ == underscored(address@),
{
    let chars = text::chars_of(address);
    let mut name = String::new();
    let mut i: usize = 0;
    while i < chars.len()
        invariant
            i <= chars@.len(),
            chars@ == address@,
            name@ == underscored(address@).take(i as int),
        decreases chars@.len() - i,
    {
        let c = chars[i];
        if c == '.' || c == ':' {
            name.push('_');
        } else {
            name.push(c);
        }
        i += 1;
        assert(underscored(address@).take(i as int) =~= underscored(address@).take(i - 1).push(
            underscored(address@)[i - 1],
        ));
    }
    assert(name@ =~= underscored(address@));
    name
}

/// An address that the server announces, and the name of the service under which it does.
#[derive(Debug)]
pub struct Announcement {
    pub instance: String,
    pub address: String,
}

/// What the server announces.
#[derive(Debug)]
pub struct DiscoveryPlan {
    pub host_name: String,
    pub port: u16,
    /// The TXT record.
    pub properties: Vec<(String, String)>,
    pub announcements: Vec<Announcement>,
}

/// The announcements of these addresses by a server with that id.
pub open spec fn are_announced(
    announcements: Seq<Announcement>,
    id: Seq<char>,
    hosts: Seq<HostInfoView>,
) -> bool {
    &&& announcements.len() == hosts.len()
    &&& forall|i: int|
        0 <= i < hosts.len() ==> {
            let announcement = #[trigger] announcements[i];
            &&& announcement.address@ == hosts[i].host_address
            &&& announcement.instance@ == "crosspaste@"@ + id + "@"@ + underscored(
                hosts[i].host_address,
            )
        }
}

/// What the server announces of itself, given what it tells clients and the JSON of it; nothing
/// where it is not to announce itself.
pub fn plan_discovery(config: &Config, info: &SyncInfo, json: &[u8]) -> (plan: Result<
    Option<DiscoveryPlan>,
    DiscoveryError,
>)
    ensures
        match plan {
            Ok(None) => !config.enable_mdns,
            Ok(Some(plan)) => {
                &&& config.enable_mdns
                &&& info@.endpoint_info.host_info_list.len() > 0
                &&& plan.host_name@ == host_label(config.server_instance_id@) + ".local."@
                &&& plan.port == config.listen.port
                &&& sync_info::record_values(plan.properties@) == pieces::pieces(
                    crate::codec::base64_encoded(json@),
                    TXT_CHUNK_SIZE as nat,
                )
                &&& forall|i: int|
                    0 <= i < plan.properties@.len() ==> (#[trigger] plan.properties@[i]).0@
                        == text::decimal(i)
                &&& are_announced(
                    plan.announcements@,
                    info@.app_info.app_instance_id,
                    info@.endpoint_info.host_info_list,
                )
            },
            Err(error) => {
                &&& config.enable_mdns
                &&& info@.endpoint_info.host_info_list.len() == 0
                &&& error == DiscoveryError::NoInterface
            },
        },
{
    if !config.enable_mdns {
        return Ok(None);
    }
    let hosts = &info.endpoint_info.host_info_list;
    assert(info@.endpoint_info.host_info_list.len() == hosts@.len());
    let properties = encode_txt_record(json, TXT_CHUNK_SIZE);
    let host_name = sanitize_host_label(config.server_instance_id.as_str()).concat(".local.");
    if hosts.len() == 0 {
        return Err(DiscoveryError::NoInterface);
    }
    let mut announcements: Vec<Announcement> = Vec::new();
    let mut i: usize = 0;
    while i < hosts.len()
        invariant
            i <= hosts@.len(),
            hosts == info.endpoint_info.host_info_list,
            announcements@.len() == i,
            forall|j: int|
                0 <= j < i ==> {
                    let announcement = #[trigger] announcements@[j];
                    &&& announcement.address@ == hosts@[j].host_address@
                    &&& announcement.instance@ == "crosspaste@"@
                        + info.app_info.app_instance_id@ + "@"@ + underscored(
                        hosts@[j].host_address@,
                    )
                },
        decreases hosts@.len() - i,
    {
        let address = hosts[i].host_address.clone();
        let instance = "crosspaste@".to_owned().concat(
            info.app_info.app_instance_id.as_str(),
        ).concat("@").concat(underscore(address.as_str()).as_str());
        announcements.push(Announcement { instance, address });
        i += 1;
    }
    assert(forall|j: int|
        0 <= j < hosts@.len() ==> info@.endpoint_info.host_info_list[j].host_address == (
        #[trigger] hosts@[j]).host_address@);
    Ok(Some(DiscoveryPlan { host_name, port: config.listen.port, properties, announcements }))
}

/// Whether the server is announced, given how many of its addresses could be.
pub fn discovery_outcome(registered: usize) -> (outcome: Result<(), DiscoveryError>)
    ensures
        (outcome == if registered > 0 {
            Ok::<(), DiscoveryError>(())
        } else {
            Err::<(), DiscoveryError>(DiscoveryError::NoneRegistered)
        }),
{
    if registered > 0 {
        Ok(())
    } else {
        Err(DiscoveryError::NoneRegistered)
    }
}

proof fn lemma_first_hyphens(text: Seq<char>) -> (from: int)
    ensures
        0 <= from <= text.len(),
        without_first_hyphens(text) == text.skip(from),
        forall|i: int| 0 <= i < from ==> #[trigger] text[i] == '-',
        from < text.len() ==> text[from] != '-',
    decreases text.len(),
{
    if text.len() > 0 && text[0] == '-' {
        let rest = lemma_first_hyphens(text.drop_first());
        assert(text.drop_first().skip(rest) =~= text.skip(rest + 1));
        assert forall|i: int| 0 <= i < rest + 1 implies #[trigger] text[i] == '-' by {
            if i > 0 {
                assert(text.drop_first()[i - 1] == text[i]);
            }
        }
        rest + 1
    } else {
        assert(text.skip(0) =~= text);
        0
    }
}

proof fn lemma_last_hyphens(text: Seq<char>) -> (to: int)
    ensures
        0 <= to <= text.len(),
        without_last_hyphens(text) == text.take(to),
        forall|i: int| to <= i < text.len() ==> #[trigger] text[i] == '-',
        to > 0 ==> text[to - 1] != '-',
    decreases text.len(),
{
    if text.len() > 0 && text.last() == '-' {
        let to = lemma_last_hyphens(text.drop_last());
        assert(text.drop_last().take(to) =~= text.take(to));
        assert forall|i: int| to <= i < text.len() implies #[trigger] text[i] == '-' by {
            if i < text.len() - 1 {
                assert(text.drop_last()[i] == text[i]);
            }
        }
        to
    } else {
        assert(text.take(text.len() as int) =~= text);
        text.len() as int
    }
}

/// A host label is a part of the name with hyphens for all but letters and digits. It has no hyphen
/// at either end, and what is left out at the ends of the name is neither letter nor digit. A name
/// without letters and digits has the server's own label.
pub proof fn law_host_label(value: Seq<char>) -> (ends: (int, int))
    ensures
        0 <= ends.0 <= ends.1 <= value.len(),
        forall|i: int|
            0 <= i < ends.0 || ends.1 <= i < value.len() ==> !text::is_alphanumeric(
                #[trigger] value[i],
            ),
        ends.0 == ends.1 ==> host_label(value) == "crosspaste-server"@,
        ends.0 < ends.1 ==> {
            &&& host_label(value).len() == ends.1 - ends.0
            &&& text::is_alphanumeric(value[ends.0])
            &&& text::is_alphanumeric(value[ends.1 - 1])
            &&& forall|i: int|
                0 <= i < host_label(value).len() ==> #[trigger] host_label(value)[i] == (
                if text::is_alphanumeric(value[ends.0 + i]) {
                    value[ends.0 + i]
                } else {
                    '-'
                })
        },
{
    let mapped = value.map_values(|c: char| label_char(c));
    let from = lemma_first_hyphens(mapped);
    let rest = mapped.skip(from);
    let to = lemma_last_hyphens(rest);
    assert(rest.take(to) =~= mapped.subrange(from, from + to));
    assert forall|i: int|
        0 <= i < from || from + to <= i < value.len() implies !text::is_alphanumeric(
        #[trigger] value[i],
    ) by {
        if i < from {
            assert(mapped[i] == '-');
        } else {
            assert(rest[i - from] == mapped[i]);
        }
        assert(mapped[i] == label_char(value[i]));
    }
    if to > 0 {
        assert(rest[to - 1] == mapped[from + to - 1]);
        assert(mapped[from] == label_char(value[from]));
        assert(mapped[from + to - 1] == label_char(value[from + to - 1]));
        if from == mapped.len() {
            assert(rest.len() == 0);
        }
    }
    (from, from + to)
}

/// In the name of a service an address keeps its length and every character but dots and colons,
/// which become underscores.
pub proof fn law_underscored(address: Seq<char>, place: int)
    requires
        0 <= place < address.len(),
    ensures
        underscored(address).len() == address.len(),
        address[place] == '.' || address[place] == ':' ==> underscored(address)[place] == '_',
        address[place] != '.' && address[place] != ':' ==> underscored(address)[place]
            == address[place],
{
}

/// Every address of the server is announced, in order, under a name with the server's id and the
/// address in it.
pub proof fn law_announced(
    announcements: Seq<Announcement>,
    id: Seq<char>,
    hosts: Seq<HostInfoView>,
    place: int,
)
    requires
        are_announced(announcements, id, hosts),
        0 <= place < hosts.len(),
    ensures
        announcements.len() == hosts.len(),
        announcements[place].address@ == hosts[place].host_address,
        ({
            let name = announcements[place].instance@;
            let end = 11 + id.len() as int;
            &&& name.len() == end + 1 + hosts[place].host_address.len()
            &&& name.take(11) == "crosspaste@"@
            &&& name.subrange(11, end) == id
            &&& name[end] == '@'
            &&& name.skip(end + 1) == underscored(hosts[place].host_address)
        }),
{
    reveal_strlit("crosspaste@");
    reveal_strlit("@");
    let name = announcements[place].instance@;
    let end = 11 + id.len() as int;
    assert(name.take(11) =~= "crosspaste@"@);
    assert(name.subrange(11, end) =~= id);
    assert(name.skip(end + 1) =~= underscored(hosts[place].host_address));
}

} // verus!
