use vstd::prelude::*;

use crate::json::{field_of, get_field, json_decode, parse_json, JsonValue};
use crate::spec::{
    AltGameSpec, AltGameView, AltRegionSpec, AltRegionView, AltServerSpec, AltServerView,
    RegionSpec, RegionView, ServerSpec, ServerView,
};

verus! {

pub open spec fn u8_of(v: Option<JsonValue>) -> Option<u8> {
    match v {
        Some(JsonValue::UInt(n)) => if n <= u8::MAX {
            Some(n as u8)
        } else {
            None
        },
        _ => None,
    }
}

pub open spec fn u32_of(v: Option<JsonValue>) -> Option<u32> {
    match v {
        Some(JsonValue::UInt(n)) => if n <= u32::MAX {
            Some(n as u32)
        } else {
            None
        },
        _ => None,
    }
}

pub open spec fn str_of(v: Option<JsonValue>) -> Option<Seq<char>> {
    match v {
        Some(JsonValue::Str(s)) => Some(s@),
        _ => None,
    }
}

/// A legacy server record: an object with `type`, `id`, `name`,
/// `nameShort`, `players` and `host`, each of its type.
pub open spec fn alt_server_of(v: JsonValue) -> Option<AltServerView> {
    match v {
        JsonValue::Object(f) => {
            let ty = u8_of(field_of(f@, "type"@));
            let id = str_of(field_of(f@, "id"@));
            let name = str_of(field_of(f@, "name"@));
            let name_short = str_of(field_of(f@, "nameShort"@));
            let players = u32_of(field_of(f@, "players"@));
            let host = str_of(field_of(f@, "host"@));
            if ty is Some && id is Some && name is Some && name_short is Some && players is Some
                && host is Some {
                Some(
                    AltServerView {
                        ty: ty->0,
                        id: id->0,
                        name: name->0,
                        name_short: name_short->0,
                        players: players->0,
                        host: host->0,
                    },
                )
            } else {
                None
            }
        },
        _ => None,
    }
}

/// Every item read as a legacy server record, or `None` if one is not one.
pub open spec fn alt_servers_of(items: Seq<JsonValue>) -> Option<Seq<AltServerView>>
    decreases items.len(),
{
    if items.len() == 0 {
        Some(Seq::empty())
    } else {
        match (alt_servers_of(items.drop_last()), alt_server_of(items.last())) {
            (Some(ss), Some(s)) => Some(ss.push(s)),
            _ => None,
        }
    }
}

/// A legacy region: an object with `name`, `id` and an array `games` of
/// server records.
pub open spec fn alt_region_of(v: JsonValue) -> Option<AltRegionView> {
    match v {
        JsonValue::Object(f) => {
            let name = str_of(field_of(f@, "name"@));
            let id = str_of(field_of(f@, "id"@));
            match field_of(f@, "games"@) {
                Some(JsonValue::Array(items)) => if name is Some && id is Some && alt_servers_of(
                    items@,
                ) is Some {
                    Some(
                        AltRegionView {
                            name: name->0,
                            id: id->0,
                            games: alt_servers_of(items@)->0,
                        },
                    )
                } else {
                    None
                },
                _ => None,
            }
        },
        _ => None,
    }
}

pub open spec fn alt_region_list(items: Seq<JsonValue>) -> Option<Seq<AltRegionView>>
    decreases items.len(),
{
    if items.len() == 0 {
        Some(Seq::empty())
    } else {
        match (alt_region_list(items.drop_last()), alt_region_of(items.last())) {
            (Some(rs), Some(r)) => Some(rs.push(r)),
            _ => None,
        }
    }
}

/// The regions of the feed's embedded document: an array of legacy regions.
pub open spec fn alt_regions_of(v: Option<JsonValue>) -> Option<Seq<AltRegionView>> {
    match v {
        Some(JsonValue::Array(items)) => alt_region_list(items@),
        _ => None,
    }
}

/// The feed's envelope: an object with a `u8` `protocol`, a string
/// `country` and a string `data`.
pub open spec fn envelope_of(v: Option<JsonValue>) -> Option<AltGameView> {
    match v {
        Some(JsonValue::Object(f)) => {
            let protocol = u8_of(field_of(f@, "protocol"@));
            let country = str_of(field_of(f@, "country"@));
            let data = str_of(field_of(f@, "data"@));
            if protocol is Some && country is Some && data is Some {
                Some(AltGameView { protocol: protocol->0, country: country->0, data: data->0 })
            } else {
                None
            }
        },
        _ => None,
    }
}

/// The address of an official server.
pub open spec fn official_url(host: Seq<char>, id: Seq<char>) -> Seq<char> {
    "https://game-"@ + host + ".airma.sh/"@ + id
}

/// A legacy server record in the common shape: its address synthesized, its
/// count always present.
pub open spec fn server_from_alt(a: AltServerView) -> ServerView {
    ServerView {
        url: official_url(a.host, a.id),
        ty: a.ty,
        id: a.id,
        name: a.name,
        name_short: a.name_short,
        players: Some(a.players),
        host: a.host,
        path: a.id,
    }
}

pub open spec fn region_from_alt(r: AltRegionView) -> RegionView {
    RegionView { name: r.name, id: r.id, games: r.games.map_values(|s: AltServerView| server_from_alt(s)) }
}

/// The regions that a body of the official feed gives: none where either
/// layer fails to decode.
pub open spec fn official_regions_spec(body: Seq<char>) -> Seq<RegionView> {
    match envelope_of(json_decode(body)) {
        None => Seq::empty(),
        Some(e) => match alt_regions_of(json_decode(e.data)) {
            None => Seq::empty(),
            Some(rs) => rs.map_values(|r: AltRegionView| region_from_alt(r)),
        },
    }
}

/// Where both layers of a feed body decode, the adapter gives one region per
/// legacy region, in order, each server with the address
/// `https://game-{host}.airma.sh/{id}` and its count present.
pub proof fn lemma_official_regions_shape(body: Seq<char>)
    requires
        envelope_of(json_decode(body)) is Some,
        alt_regions_of(json_decode(envelope_of(json_decode(body))->0.data)) is Some,
    ensures
        ({
            let rs = alt_regions_of(json_decode(envelope_of(json_decode(body))->0.data))->0;
            let out = official_regions_spec(body);
            &&& out.len() == rs.len()
            &&& forall|i: int|
                0 <= i < rs.len() ==> #[trigger] out[i].games.len() == rs[i].games.len()
                    && out[i].id == rs[i].id && out[i].name == rs[i].name
            &&& forall|i: int, j: int|
                0 <= i < rs.len() && 0 <= j < rs[i].games.len() ==> #[trigger] out[i].games[j].url
                    == official_url(rs[i].games[j].host, rs[i].games[j].id) && out[i].games[j].players
                    == Some(rs[i].games[j].players)
        }),
{
}

fn get_u8(f: &Vec<(String, JsonValue)>, key: &str) -> (r: Option<u8>)
    ensures
        r == u8_of(field_of(f@, key@)),
{
    match get_field(f, key) {
        Some(JsonValue::UInt(n)) => if *n <= u8::MAX as u64 {
            Some(*n as u8)
        } else {
            None
        },
        _ => None,
    }
}

fn get_u32(f: &Vec<(String, JsonValue)>, key: &str) -> (r: Option<u32>)
    ensures
        r == u32_of(field_of(f@, key@)),
{
    match get_field(f, key) {
        Some(JsonValue::UInt(n)) => if *n <= u32::MAX as u64 {
            Some(*n as u32)
        } else {
            None
        },
        _ => None,
    }
}

fn get_string(f: &Vec<(String, JsonValue)>, key: &str) -> (r: Option<String>)
    ensures
        match r {
            Some(s) => str_of(field_of(f@, key@)) == Some(s@),
            None => str_of(field_of(f@, key@)) is None,
        },
{
    match get_field(f, key) {
        Some(JsonValue::Str(s)) => Some(s.clone()),
        _ => None,
    }
}

/// Reads one legacy server record.
pub fn decode_alt_server(v: &JsonValue) -> (r: Option<AltServerSpec>)
    ensures
        match r {
            Some(s) => alt_server_of(*v) == Some(s@),
            None => alt_server_of(*v) is None,
        },
{
    match v {
        JsonValue::Object(f) => {
            let ty = get_u8(f, "type");
            let id = get_string(f, "id");
            let name = get_string(f, "name");
            let name_short = get_string(f, "nameShort");
            let players = get_u32(f, "players");
            let host = get_string(f, "host");
            match (ty, id, name, name_short, players, host) {
                (Some(ty), Some(id), Some(name), Some(name_short), Some(players), Some(host)) => {
                    Some(AltServerSpec { ty, id, name, name_short, players, host })
                },
                _ => None,
            }
        },
        _ => None,
    }
}

/// Reads a legacy region.
#[verifier::loop_isolation(false)]
pub fn decode_alt_region(v: &JsonValue) -> (r: Option<AltRegionSpec>)
    ensures
        match r {
            Some(g) => alt_region_of(*v) == Some(g@),
            None => alt_region_of(*v) is None,
        },
{
    match v {
        JsonValue::Object(f) => {
            let name = get_string(f, "name");
            let id = get_string(f, "id");
            let items = match get_field(f, "games") {
                Some(JsonValue::Array(items)) => items,
                _ => {
                    return None;
                },
            };
            let mut games: Vec<AltServerSpec> = Vec::new();
            let mut i: usize = 0;
            while i < items.len()
                invariant
                    i <= items@.len(),
                    alt_servers_of(items@.take(i as int)) == Some(
                        games@.map_values(|s: AltServerSpec| s@),
                    ),
                decreases items.len() - i,
            {
                assert(items@.take(i + 1).drop_last() == items@.take(i as int));
                match decode_alt_server(&items[i]) {
                    Some(s) => {
                        let ghost before = games@.map_values(|s: AltServerSpec| s@);
                        games.push(s);
                        assert(games@.map_values(|s: AltServerSpec| s@) =~= before.push(s@));
                    },
                    None => {
                        proof {
                            lemma_alt_servers_fail(items@, i + 1);
                        }
                        return None;
                    },
                }
                i = i + 1;
            }
            assert(items@.take(i as int) == items@);
            match (name, id) {
                (Some(name), Some(id)) => Some(AltRegionSpec { name, id, games }),
                _ => None,
            }
        },
        _ => None,
    }
}

proof fn lemma_alt_servers_fail(items: Seq<JsonValue>, i: int)
    requires
        0 <= i <= items.len(),
        alt_servers_of(items.take(i)) is None,
    ensures
        alt_servers_of(items) is None,
    decreases items.len() - i,
{
    if i < items.len() {
        assert(items.take(i + 1).drop_last() == items.take(i));
        lemma_alt_servers_fail(items, i + 1);
    } else {
        assert(items.take(i) == items);
    }
}

proof fn lemma_alt_regions_fail(items: Seq<JsonValue>, i: int)
    requires
        0 <= i <= items.len(),
        alt_region_list(items.take(i)) is None,
    ensures
        alt_region_list(items) is None,
    decreases items.len() - i,
{
    if i < items.len() {
        assert(items.take(i + 1).drop_last() == items.take(i));
        lemma_alt_regions_fail(items, i + 1);
    } else {
        assert(items.take(i) == items);
    }
}

/// Reads the embedded document of the feed: an array of legacy regions.
#[verifier::loop_isolation(false)]
pub fn decode_alt_regions(v: &Option<JsonValue>) -> (r: Option<Vec<AltRegionSpec>>)
    ensures
        match r {
            Some(rs) => alt_regions_of(*v) == Some(rs@.map_values(|g: AltRegionSpec| g@)),
            None => alt_regions_of(*v) is None,
        },
{
    let items = match v {
        Some(JsonValue::Array(items)) => items,
        _ => {
            return None;
        },
    };
    let mut regions: Vec<AltRegionSpec> = Vec::new();
    let mut i: usize = 0;
    while i < items.len()
        invariant
            i <= items@.len(),
            alt_region_list(items@.take(i as int)) == Some(
                regions@.map_values(|g: AltRegionSpec| g@),
            ),
        decreases items.len() - i,
    {
        assert(items@.take(i + 1).drop_last() == items@.take(i as int));
        match decode_alt_region(&items[i]) {
            Some(g) => {
                let ghost before = regions@.map_values(|g: AltRegionSpec| g@);
                regions.push(g);
                assert(regions@.map_values(|g: AltRegionSpec| g@) =~= before.push(g@));
            },
            None => {
                proof {
                    lemma_alt_regions_fail(items@, i + 1);
                }
                return None;
            },
        }
        i = i + 1;
    }
    assert(items@.take(i as int) == items@);
    Some(regions)
}

/// Reads the feed's envelope.
pub fn decode_envelope(v: &Option<JsonValue>) -> (r: Option<AltGameSpec>)
    ensures
        match r {
            Some(g) => envelope_of(*v) == Some(g@),
            None => envelope_of(*v) is None,
        },
{
    match v {
        Some(JsonValue::Object(f)) => {
            let protocol = get_u8(f, "protocol");
            let country = get_string(f, "country");
            let data = get_string(f, "data");
            match (protocol, country, data) {
                (Some(protocol), Some(country), Some(data)) => Some(
                    AltGameSpec { protocol, country, data },
                ),
                _ => None,
            }
        },
        _ => None,
    }
}

/// Puts a legacy server record into the common shape, with the address
/// `https://game-{host}.airma.sh/{id}` and its count present.
pub fn official_server(a: &AltServerSpec) -> (r: ServerSpec)
    ensures
        r@ == server_from_alt(a@),
{
    let mut url = String::new();
    url.append("https://game-");
    url.append(a.host.as_str());
    url.append(".airma.sh/");
    url.append(a.id.as_str());
    assert(url@ =~= official_url(a.host@, a.id@));
    ServerSpec {
        url,
        ty: a.ty,
        id: a.id.clone(),
        name: a.name.clone(),
        name_short: a.name_short.clone(),
        players: Some(a.players),
        host: a.host.clone(),
        path: a.id.clone(),
    }
}

/// Puts legacy regions into the common shape, in their order.
pub fn official_to_regions(alt: &Vec<AltRegionSpec>) -> (r: Vec<RegionSpec>)
    ensures
        r@.map_values(|g: RegionSpec| g@) == alt@.map_values(|g: AltRegionSpec| g@).map_values(
            |g: AltRegionView| region_from_alt(g),
        ),
{
    let mut out: Vec<RegionSpec> = Vec::new();
    let mut i: usize = 0;
    while i < alt.len()
        invariant
            i <= alt@.len(),
            out@.map_values(|g: RegionSpec| g@) =~= alt@.take(i as int).map_values(
                |g: AltRegionSpec| g@,
            ).map_values(|g: AltRegionView| region_from_alt(g)),
        decreases alt.len() - i,
    {
        let src = &alt[i];
        let mut games: Vec<ServerSpec> = Vec::new();
        let mut j: usize = 0;
        while j < src.games.len()
            invariant
                j <= src.games@.len(),
                games@.map_values(|s: ServerSpec| s@) =~= src.games@.take(j as int).map_values(
                    |s: AltServerSpec| s@,
                ).map_values(|s: AltServerView| server_from_alt(s)),
            decreases src.games.len() - j,
        {
            let ghost before = games@.map_values(|s: ServerSpec| s@);
            let s = official_server(&src.games[j]);
            games.push(s);
            assert(games@.map_values(|s: ServerSpec| s@) =~= before.push(s@));
            assert(src.games@.take(j + 1).map_values(|s: AltServerSpec| s@).map_values(
                |s: AltServerView| server_from_alt(s),
            ) =~= src.games@.take(j as int).map_values(|s: AltServerSpec| s@).map_values(
                |s: AltServerView| server_from_alt(s),
            ).push(server_from_alt(src.games@[j as int]@)));
            j = j + 1;
        }
        assert(src.games@.take(j as int) == src.games@);
        let ghost before = out@.map_values(|g: RegionSpec| g@);
        let g = RegionSpec { name: src.name.clone(), id: src.id.clone(), games };
        assert(g@ == region_from_alt(src@));
        out.push(g);
        assert(out@.map_values(|g: RegionSpec| g@) =~= before.push(g@));
        assert(alt@.take(i + 1).map_values(|g: AltRegionSpec| g@).map_values(
            |g: AltRegionView| region_from_alt(g),
        ) =~= alt@.take(i as int).map_values(|g: AltRegionSpec| g@).map_values(
            |g: AltRegionView| region_from_alt(g),
        ).push(region_from_alt(alt@[i as int]@)));
        i = i + 1;
    }
    assert(alt@.take(i as int) == alt@);
    out
}

/// The regions that a body of the official feed carries: the envelope is
/// decoded, then its `data` string is decoded again; where either fails,
/// no region at all.
pub fn official_regions(body: &str) -> (r: Vec<RegionSpec>)
    ensures
        r@.map_values(|g: RegionSpec| g@) == official_regions_spec(body@),
{
    let envelope = match decode_envelope(&parse_json(body)) {
        Some(e) => e,
        None => {
            let r: Vec<RegionSpec> = Vec::new();
            assert(r@.map_values(|g: RegionSpec| g@) =~= Seq::<RegionView>::empty());
            return r;
        },
    };
    match decode_alt_regions(&parse_json(envelope.data.as_str())) {
        Some(alt) => official_to_regions(&alt),
        None => {
            let r: Vec<RegionSpec> = Vec::new();
            assert(r@.map_values(|g: RegionSpec| g@) =~= Seq::<RegionView>::empty());
            r
        },
    }
}

} // verus!
