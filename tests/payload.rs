use airmash_games::aggregate::{assemble, country_code, counts_of, games_payload, status_targets};
use airmash_games::config::parse_config;
use airmash_games::encode::{encode_payload, regions_json};
use airmash_games::fetch::{classify_reply, FetchOutcome, Unavailable};
use airmash_games::spec::{GameSpec, RegionSpec, ServerSpec};

fn eu_directory() -> GameSpec {
    parse_config(
        "eu|1|ffa1|Free For All|FFA|a.example|ffa1\neu|2|ctf1|Capture The Flag|CTF|b.example|ctf1\n",
        "eu|EU\n",
    )
    .unwrap()
}

const EU_INNER: &str = r#"[{"name":"EU","id":"eu","games":[{"url":"wss://a.example/ffa1","type":1,"id":"ffa1","name":"Free For All","nameShort":"FFA","players":5,"host":"a.example","path":"ffa1"},{"url":"wss://b.example/ctf1","type":2,"id":"ctf1","name":"Capture The Flag","nameShort":"CTF","players":null,"host":"b.example","path":"ctf1"}]}]"#;

#[test]
fn end_to_end_one_region_one_timeout() {
    let snapshot = eu_directory();
    let outcomes = vec![
        classify_reply(200, Some("{\"players\":5}")),
        FetchOutcome::Unavailable(Unavailable::Transport),
    ];
    let text = games_payload(&snapshot, &outcomes, None, None);
    let expected = format!(
        "{{\"protocol\":5,\"country\":\"XX\",\"data\":{}}}",
        serde_json::to_string(EU_INNER).unwrap()
    );
    assert_eq!(text, expected);
    assert!(text.starts_with(
        r#"{"protocol":5,"country":"XX","data":"[{\"name\":\"EU\",\"id\":\"eu\",\"games\":[{\"url\":\"wss://a.example/ffa1\""#
    ));
    let v: serde_json::Value = serde_json::from_str(&text).unwrap();
    assert_eq!(v["data"].as_str().unwrap(), EU_INNER);
    // the shared directory is not touched
    assert_eq!(snapshot.data[0].games[0].players, None);
}

#[test]
fn targets_follow_directory_order() {
    let t = status_targets(&eu_directory());
    assert_eq!(t, vec!["https://a.example/ffa1", "https://b.example/ctf1"]);
}

#[test]
fn one_failed_fetch_among_many_only_blanks_its_own_server() {
    let mut servers = String::new();
    for i in 0..10 {
        let region = if i < 4 { "eu" } else { "us" };
        servers.push_str(&format!("{}|1|s{}|S{}|s{}|h{}.example|p{}\n", region, i, i, i, i, i));
    }
    let snapshot = parse_config(&servers, "eu|Europe\nus|US\n").unwrap();
    let mut counts: Vec<Option<u32>> = (0..10).map(|i| Some(i * 10)).collect();
    counts[6] = None;
    let p = assemble(&snapshot, &counts, Vec::new(), "DE".to_string());
    let flat: Vec<&ServerSpec> = p.data.iter().flat_map(|r| r.games.iter()).collect();
    assert_eq!(flat.len(), 10);
    for (i, s) in flat.iter().enumerate() {
        if i == 6 {
            assert_eq!(s.players, None);
        } else {
            assert_eq!(s.players, Some(i as u32 * 10));
        }
        assert_eq!(s.id, format!("s{}", i));
        assert_eq!(s.url, format!("wss://h{}.example/p{}", i, i));
    }
    assert_eq!(p.protocol, 5);
    assert_eq!(p.country, "DE");
}

#[test]
fn missing_results_leave_counts_absent() {
    let p = assemble(&eu_directory(), &vec![Some(3)], Vec::new(), "XX".to_string());
    assert_eq!(p.data[0].games[0].players, Some(3));
    assert_eq!(p.data[0].games[1].players, None);
}

#[test]
fn official_regions_are_appended_after_native_ones() {
    let official = vec![RegionSpec {
        name: "Official".to_string(),
        id: "eu".to_string(),
        games: Vec::new(),
    }];
    let p = assemble(&eu_directory(), &vec![Some(1), Some(2)], official, "XX".to_string());
    assert_eq!(p.data.len(), 2);
    assert_eq!(p.data[0].name, "EU");
    assert_eq!(p.data[1].name, "Official");
    assert_eq!(p.data[1].id, "eu");
}

#[test]
fn official_body_goes_into_payload() {
    let inner = r#"[{"name":"Off","id":"o","games":[{"type":1,"id":"g","name":"G","nameShort":"g","players":4,"host":"eu"}]}]"#;
    let body = format!(
        "{{\"protocol\":5,\"country\":\"DE\",\"data\":{}}}",
        serde_json::to_string(inner).unwrap()
    );
    let outcomes = vec![FetchOutcome::Players(1), FetchOutcome::Players(2)];
    let text = games_payload(&eu_directory(), &outcomes, Some(body), Some("FR".to_string()));
    let v: serde_json::Value = serde_json::from_str(&text).unwrap();
    assert_eq!(v["country"], "FR");
    let data: serde_json::Value = serde_json::from_str(v["data"].as_str().unwrap()).unwrap();
    assert_eq!(data.as_array().unwrap().len(), 2);
    assert_eq!(data[1]["games"][0]["url"], "https://game-eu.airma.sh/g");
    assert_eq!(data[1]["games"][0]["players"], 4);
    assert_eq!(data[0]["games"][1]["players"], 2);
}

#[test]
fn country_defaults_to_xx() {
    assert_eq!(country_code(None), "XX");
    assert_eq!(country_code(Some("DE".to_string())), "DE");
}

#[test]
fn counts_follow_outcomes() {
    let c = counts_of(&vec![
        FetchOutcome::Players(4),
        FetchOutcome::Unavailable(Unavailable::Json),
    ]);
    assert_eq!(c, vec![Some(4), None]);
}

#[test]
fn payload_escapes_strings() {
    let p = GameSpec {
        protocol: 255,
        country: "a\"b".to_string(),
        data: Vec::new(),
    };
    assert_eq!(encode_payload(&p), r#"{"protocol":255,"country":"a\"b","data":"[]"}"#);
}

#[test]
fn numbers_are_written_in_decimal() {
    let p = assemble(&eu_directory(), &vec![Some(4294967295), Some(0)], Vec::new(), "XX".to_string());
    let inner = regions_json(&p.data);
    assert!(inner.contains("\"players\":4294967295,"));
    assert!(inner.contains("\"players\":0,"));
    assert!(inner.contains("\"type\":2,"));
    assert_eq!(regions_json(&Vec::new()), "[]");
}
