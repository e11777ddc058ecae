use airmash_games::official::{
    decode_alt_regions, decode_envelope, official_regions, official_server, official_to_regions,
};
use airmash_games::json::JsonValue;
use airmash_games::spec::{AltRegionSpec, AltServerSpec};

fn envelope(data: &str) -> String {
    let quoted = serde_json::to_string(data).unwrap();
    format!("{{\"protocol\":5,\"country\":\"DE\",\"data\":{}}}", quoted)
}

const TWO_REGIONS: &str = "[\
{\"name\":\"Europe\",\"id\":\"eu\",\"games\":[{\"type\":1,\"id\":\"ffa1\",\"name\":\"Free For All\",\"nameShort\":\"FFA\",\"players\":12,\"host\":\"eu\"}]},\
{\"name\":\"US\",\"id\":\"us\",\"games\":[{\"type\":2,\"id\":\"ctf1\",\"name\":\"CTF\",\"nameShort\":\"CTF\",\"players\":0,\"host\":\"us\"}]}\
]";

#[test]
fn double_encoded_feed_gives_two_regions_with_synthesized_urls() {
    let regions = official_regions(&envelope(TWO_REGIONS));
    assert_eq!(regions.len(), 2);
    assert_eq!(regions[0].id, "eu");
    assert_eq!(regions[0].name, "Europe");
    assert_eq!(regions[0].games.len(), 1);
    assert_eq!(regions[0].games[0].url, "https://game-eu.airma.sh/ffa1");
    assert_eq!(regions[0].games[0].players, Some(12));
    assert_eq!(regions[0].games[0].ty, 1);
    assert_eq!(regions[0].games[0].name_short, "FFA");
    assert_eq!(regions[1].games[0].url, "https://game-us.airma.sh/ctf1");
    assert_eq!(regions[1].games[0].players, Some(0));
    assert_eq!(regions[1].games[0].url(), "https://game-us.airma.sh/ctf1");
}

#[test]
fn any_decode_failure_gives_no_region() {
    assert!(official_regions("not json").is_empty());
    assert!(official_regions("{\"protocol\":5,\"country\":\"DE\"}").is_empty());
    assert!(official_regions(&envelope("[{\"name\":\"x\"")).is_empty());
    // one bad record spoils the whole list
    let bad = TWO_REGIONS.replace("\"players\":0", "\"players\":null");
    assert!(official_regions(&envelope(&bad)).is_empty());
    // `data` as a nested array, not a string, is refused
    let nested = format!("{{\"protocol\":5,\"country\":\"DE\",\"data\":{}}}", TWO_REGIONS);
    assert!(official_regions(&nested).is_empty());
    // a protocol tag that does not fit a u8 is refused
    let wide = envelope(TWO_REGIONS).replace("\"protocol\":5", "\"protocol\":300");
    assert!(official_regions(&wide).is_empty());
}

#[test]
fn empty_region_list_gives_no_region() {
    assert!(official_regions(&envelope("[]")).is_empty());
}

fn text(s: &str) -> JsonValue {
    JsonValue::Str(s.to_string())
}

fn entry(k: &str, v: JsonValue) -> (String, JsonValue) {
    (k.to_string(), v)
}

#[test]
fn envelope_fields_are_read() {
    let v = Some(JsonValue::Object(vec![
        entry("country", text("DE")),
        entry("data", text("[]")),
        entry("protocol", JsonValue::UInt(5)),
    ]));
    let e = decode_envelope(&v).unwrap();
    assert_eq!(e.protocol, 5);
    assert_eq!(e.country, "DE");
    assert_eq!(e.data, "[]");
    let missing = Some(JsonValue::Object(vec![entry("data", text("[]"))]));
    assert!(decode_envelope(&missing).is_none());
}

#[test]
fn legacy_regions_are_read() {
    let server = JsonValue::Object(vec![
        entry("host", text("us")),
        entry("id", text("ctf1")),
        entry("name", text("CTF")),
        entry("nameShort", text("C")),
        entry("players", JsonValue::UInt(0)),
        entry("type", JsonValue::UInt(2)),
    ]);
    let region = JsonValue::Object(vec![
        entry("games", JsonValue::Array(vec![server])),
        entry("id", text("us")),
        entry("name", text("US")),
    ]);
    let rs = decode_alt_regions(&Some(JsonValue::Array(vec![region]))).unwrap();
    assert_eq!(rs.len(), 1);
    assert_eq!(rs[0].games[0].host, "us");
    assert_eq!(rs[0].games[0].players, 0);
    assert_eq!(rs[0].games[0].ty, 2);
    assert!(decode_alt_regions(&Some(JsonValue::Object(Vec::new()))).is_none());
    assert!(decode_alt_regions(&None).is_none());
}

#[test]
fn legacy_server_in_common_shape() {
    let a = AltServerSpec {
        ty: 3,
        id: "btr1".to_string(),
        name: "Battle Royale".to_string(),
        name_short: "BTR".to_string(),
        players: 7,
        host: "eu".to_string(),
    };
    let s = official_server(&a);
    assert_eq!(s.url, "https://game-eu.airma.sh/btr1");
    assert_eq!(s.path, "btr1");
    assert_eq!(s.host, "eu");
    assert_eq!(s.players, Some(7));
    let rs = official_to_regions(&vec![AltRegionSpec {
        name: "Europe".to_string(),
        id: "eu".to_string(),
        games: vec![a],
    }]);
    assert_eq!(rs.len(), 1);
    assert_eq!(rs[0].games[0].url, "https://game-eu.airma.sh/btr1");
}
