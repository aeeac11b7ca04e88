//! The multicast-DNS service record through which a node advertises itself.

use vstd::prelude::*;

use mdns_sd::ServiceInfo;

use crate::peers::peer_name;
use crate::state::{State, lemma_state_text_roundtrip, state_from_text, state_text};

verus! {

#[verifier::external_type_specification]
#[verifier::external_body]
pub struct ExServiceInfo(mdns_sd::ServiceInfo);

#[verifier::external_type_specification]
#[verifier::external_body]
pub struct ExMdnsError(mdns_sd::Error);

/// The service type under which nodes advertise.
pub open spec fn service_type_spec() -> Seq<char> {
    "_orb._udp.local."@
}

/// The service type under which nodes advertise.
pub fn service_type() -> (s: &'static str)
    ensures
        s@ == service_type_spec(),
{
    "_orb._udp.local."
}

/// The port announced in the service record.
pub const SERVICE_PORT: u16 = 34254;

/// The instance name of a node's service: `orb-` and its node id.
pub open spec fn instance_name_spec(node_id: Seq<char>) -> Seq<char> {
    "orb-"@ + node_id
}

/// Writes the instance name of a node's service.
pub fn instance_name(node_id: &str) -> (s: String)
    ensures
        s@ == instance_name_spec(node_id@),
{
    let mut s = "orb-".to_owned();
    s.append(node_id);
    s
}

/// The ASCII lowercase of a character.
pub open spec fn ascii_lower(c: char) -> char {
    if 65 <= (c as u32) <= 90 {
        ((c as u32) + 32) as char
    } else {
        c
    }
}

/// The number of bytes of the UTF-8 encoding of `s`.
pub open spec fn utf8_len(s: Seq<char>) -> nat {
    vstd::utf8::encode_utf8(s).len()
}

/// Whether every TXT property can be put in a record: its key holds no `=`
/// and key and value together, with the `=` between them, fit in 255 bytes.
pub open spec fn txt_properties_fit(props: Seq<(String, String)>) -> bool {
    forall|i: int|
        0 <= i < props.len() ==> !(#[trigger] props[i]).0@.contains('=') && utf8_len(props[i].0@)
            + utf8_len(props[i].1@) + 1 <= 255
}

/// The contents of a service record, as plain values: service type,
/// instance name, host name, the addresses as a comma-separated list, the
/// port, and the TXT properties in order.
#[derive(Debug)]
pub struct ServiceDescription {
    pub ty_domain: String,
    pub instance: String,
    pub host: String,
    pub addresses: String,
    pub port: u16,
    pub properties: Vec<(String, String)>,
}

/// Whether `d` describes the record that advertises a node with id
/// `node_id`, name `name` and state `state`: type `_orb._udp.local.`,
/// instance `orb-<node id>`, host `orb.local.`, no fixed addresses (they are
/// found per interface), port 34254, and the properties `id`, `name` and
/// `state` in that order.
pub open spec fn describes_node(d: ServiceDescription, node_id: Seq<char>, name: Seq<char>, state: State) -> bool {
    &&& d.ty_domain@ == service_type_spec()
    &&& d.instance@ == instance_name_spec(node_id)
    &&& d.host@ == "orb.local."@
    &&& d.addresses@ == Seq::<char>::empty()
    &&& d.port == SERVICE_PORT
    &&& d.properties@.len() == 3
    &&& d.properties@[0].0@ == "id"@ && d.properties@[0].1@ == node_id
    &&& d.properties@[1].0@ == "name"@ && d.properties@[1].1@ == name
    &&& d.properties@[2].0@ == "state"@ && d.properties@[2].1@ == state_text(state)
}

/// Chooses the contents of the record that advertises a node.
pub fn service_description(node_id: &str, name: &str, state: State) -> (d: ServiceDescription)
    ensures
        describes_node(d, node_id@, name@, state),
{
    let mut properties: Vec<(String, String)> = Vec::new();
    properties.push(("id".to_owned(), node_id.to_owned()));
    properties.push(("name".to_owned(), name.to_owned()));
    properties.push(("state".to_owned(), state.as_str().to_owned()));
    let addresses = "".to_owned();
    proof {
        reveal_strlit("");
        assert(addresses@ =~= Seq::<char>::empty());
    }
    ServiceDescription {
        ty_domain: service_type().to_owned(),
        instance: instance_name(node_id),
        host: "orb.local.".to_owned(),
        addresses,
        port: SERVICE_PORT,
        properties,
    }
}

/// The instance name as it stands in a record's full name: each `.` and
/// each backslash preceded by a backslash.
pub open spec fn escape_instance(s: Seq<char>) -> Seq<char>
    decreases s.len(),
{
    if s.len() == 0 {
        s
    } else {
        escape_instance(s.drop_last()) + (if s.last() == '.' {
            seq!['\\', '.']
        } else if s.last() == '\\' {
            seq!['\\', '\\']
        } else {
            seq![s.last()]
        })
    }
}

/// Whether `t` holds `sub` somewhere.
pub open spec fn contains_text(t: Seq<char>, sub: Seq<char>) -> bool {
    exists|i: int| 0 <= i && i + sub.len() <= t.len() && #[trigger] t.subrange(i, i + sub.len()) == sub
}

/// Whether `t` ends with `suffix`.
pub open spec fn ends_with_text(t: Seq<char>, suffix: Seq<char>) -> bool {
    suffix.len() <= t.len() && t.skip(t.len() - suffix.len()) == suffix
}

/// What a built service record holds besides its TXT properties: its
/// service type, its full name, its host name and its port.
pub uninterp spec fn record_header(info: ServiceInfo) -> (Seq<char>, Seq<char>, Seq<char>, u16);

/// The TXT properties that a built service record holds, as key and value
/// text, in order.
pub uninterp spec fn record_properties(info: ServiceInfo) -> Seq<(Seq<char>, Seq<char>)>;

/// The key and value text of a property.
pub open spec fn property_text(p: (String, String)) -> (Seq<char>, Seq<char>) {
    (p.0@, p.1@)
}

/// Calls `mdns_sd::ServiceInfo::new` with the fields of `d`, one for one.
/// With no addresses and ASCII keys that differ ignoring case, its source
/// fails exactly when a property's key holds `=` or a property exceeds 255
/// bytes. When it succeeds, the record keeps the service type as given
/// (it holds no `._sub.`), its full name is the escaped instance name, a
/// `.` and the type, its host name is as given (it does not end in
/// `.local.local.`), its port is as given, and its TXT properties are the
/// given ones in order. The contract states all of that over the names
/// `record_header` and `record_properties`.
#[verifier::external_body]
fn new_service_info(d: &ServiceDescription) -> (r: Result<ServiceInfo, mdns_sd::Error>)
    requires
        d.addresses@.len() == 0,
        forall|i: int|
            0 <= i < d.properties@.len() ==> vstd::utf8::is_ascii_chars(
                #[trigger] d.properties@[i].0@,
            ),
        forall|i: int, j: int|
            0 <= i < j < d.properties@.len() ==> d.properties@[i].0@.map_values(
                |c: char| ascii_lower(c),
            ) != d.properties@[j].0@.map_values(|c: char| ascii_lower(c)),
        !contains_text(d.ty_domain@, "._sub."@),
        !ends_with_text(d.host@, ".local.local."@),
    ensures
        r is Ok <==> txt_properties_fit(d.properties@),
        match r {
            Ok(info) => {
                &&& record_header(info) == (
                    d.ty_domain@,
                    escape_instance(d.instance@) + "."@ + d.ty_domain@,
                    d.host@,
                    d.port,
                )
                &&& record_properties(info) == d.properties@.map_values(
                    |p: (String, String)| property_text(p),
                )
            },
            Err(_) => true,
        },
{
    ServiceInfo::new(&d.ty_domain, &d.instance, &d.host, d.addresses.as_str(), d.port, d.properties.as_slice())
}

/// Why a node's service record could not be built.
#[derive(Debug, Clone, Copy, PartialEq, Eq)]
pub enum ServiceError {
    /// A property of the record is longer than a TXT string may be.
    PropertyTooLong,
}

/// Whether the record of a node with id `node_id` and name `name` fits:
/// `id=<node id>` and `name=<name>` each take at most 255 bytes.
pub open spec fn service_record_fits(node_id: Seq<char>, name: Seq<char>) -> bool {
    &&& utf8_len(node_id) + 3 <= 255
    &&& utf8_len(name) + 5 <= 255
}

/// Whether `info` is the record that advertises a node with id `node_id`,
/// name `name` and state `state`: type `_orb._udp.local.`, full name
/// `orb-<node id>` escaped and followed by `.` and the type, host
/// `orb.local.`, port 34254, and the properties `id`, `name` and `state` in
/// that order.
pub open spec fn advertises_node(info: ServiceInfo, node_id: Seq<char>, name: Seq<char>, state: State) -> bool {
    &&& record_header(info) == (
        service_type_spec(),
        escape_instance(instance_name_spec(node_id)) + "."@ + service_type_spec(),
        "orb.local."@,
        SERVICE_PORT,
    )
    &&& record_properties(info) == seq![
        ("id"@, node_id),
        ("name"@, name),
        ("state"@, state_text(state)),
    ]
}

/// Builds the service record described by `d`, where `d` describes the
/// record of some node.
pub fn service_info_from(d: &ServiceDescription) -> (r: Result<ServiceInfo, ServiceError>)
    requires
        exists|node_id: Seq<char>, name: Seq<char>, state: State| describes_node(*d, node_id, name, state),
    ensures
        r is Ok <==> service_record_fits(d.properties@[0].1@, d.properties@[1].1@),
        forall|node_id: Seq<char>, name: Seq<char>, state: State|
            #[trigger] describes_node(*d, node_id, name, state) ==> match r {
                Ok(info) => advertises_node(info, node_id, name, state),
                Err(_) => true,
            },
{
    let ghost w = choose|node_id: Seq<char>, name: Seq<char>, state: State| describes_node(*d, node_id, name, state);
    proof {
        let state = w.2;
        reveal_strlit("");
        reveal_strlit("id");
        reveal_strlit("name");
        reveal_strlit("state");
        reveal_strlit("IDLE");
        reveal_strlit("SEND");
        reveal_strlit("RECEIVE");
        let props = d.properties@;
        assert forall|i: int| 0 <= i < 3 implies vstd::utf8::is_ascii_chars(#[trigger] props[i].0@)
            && !props[i].0@.contains('=') && utf8_len(props[i].0@) == props[i].0@.len() by {
            vstd::utf8::is_ascii_chars_encode_utf8(props[i].0@);
        }
        assert forall|i: int, j: int| 0 <= i < j < 3 implies props[i].0@.map_values(
            |c: char| ascii_lower(c),
        ) != props[j].0@.map_values(|c: char| ascii_lower(c)) by {
            assert(props[i].0@.map_values(|c: char| ascii_lower(c)).len() == props[i].0@.len());
            assert(props[j].0@.map_values(|c: char| ascii_lower(c)).len() == props[j].0@.len());
        }
        vstd::utf8::is_ascii_chars_encode_utf8(state_text(state));
        assert(utf8_len(state_text(state)) <= 7);
        reveal_strlit("._sub.");
        reveal_strlit("_orb._udp.local.");
        reveal_strlit(".local.local.");
        reveal_strlit("orb.local.");
        let ty = d.ty_domain@;
        assert(!contains_text(ty, "._sub."@)) by {
            if contains_text(ty, "._sub."@) {
                let i = choose|i: int|
                    0 <= i && i + 6 <= ty.len() && #[trigger] ty.subrange(i, i + 6) == "._sub."@;
                assert(ty.subrange(i, i + 6)[2] == 's');
                assert(ty[i + 2] == 's');
            }
        }
        assert(!ends_with_text(d.host@, ".local.local."@));
    }
    match new_service_info(d) {
        Ok(info) => {
            proof {
                let props = d.properties@.map_values(|p: (String, String)| property_text(p));
                assert forall|node_id: Seq<char>, name: Seq<char>, state: State|
                    #[trigger] describes_node(*d, node_id, name, state) implies advertises_node(
                        info,
                        node_id,
                        name,
                        state,
                    ) by {
                    assert(props =~= seq![
                        ("id"@, node_id),
                        ("name"@, name),
                        ("state"@, state_text(state)),
                    ]);
                }
            }
            Ok(info)
        },
        Err(_) => Err(ServiceError::PropertyTooLong),
    }
}

/// Builds the service record that advertises a node: the record that
/// `service_description` gives for it.
pub fn service_info(node_id: &str, name: &str, state: State) -> (r: Result<
    ServiceInfo,
    ServiceError,
>)
    ensures
        r is Ok <==> service_record_fits(node_id@, name@),
        match r {
            Ok(info) => advertises_node(info, node_id@, name@, state),
            Err(_) => true,
        },
{
    let d = service_description(node_id, name, state);
    service_info_from(&d)
}

/// Whether the advertised service must be registered again: the node's state
/// changed since it was last advertised.
pub fn needs_reregistration(last: State, current: State) -> (b: bool)
    ensures
        b == (last != current),
{
    last != current
}

/// A peer that reads the `id`, `name` and `state` properties of a node's
/// record gets back that node's id, name and state.
pub proof fn lemma_advertised_record_read_back(
    d: ServiceDescription,
    node_id: Seq<char>,
    name: Seq<char>,
    state: State,
)
    requires
        describes_node(d, node_id, name, state),
    ensures
        d.properties@[0].1@ == node_id,
        peer_name(Some(d.properties@[1].1@)) == name,
        state_from_text(Some(d.properties@[2].1@)) == state,
{
    lemma_state_text_roundtrip(state);
}

/// A peer that reads the `id`, `name` and `state` properties of the record
/// that a node registers gets back that node's id, name and state.
pub proof fn lemma_registered_record_read_back(
    info: ServiceInfo,
    node_id: Seq<char>,
    name: Seq<char>,
    state: State,
)
    requires
        advertises_node(info, node_id, name, state),
    ensures
        record_properties(info)[0].1 == node_id,
        peer_name(Some(record_properties(info)[1].1)) == name,
        state_from_text(Some(record_properties(info)[2].1)) == state,
{
    lemma_state_text_roundtrip(state);
}

} // verus!
