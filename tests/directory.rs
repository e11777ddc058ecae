use airmash_games::config::{fetch_config, parse_config, ParseError, RefreshError};
use airmash_games::spec::ServerSpec;
use airmash_games::text::{parse_u8, split_str};

const REGIONS: &str = "eu|Europe\nus|United States\nasia|Asia\n";
const SERVERS: &str = "eu|1|ffa1|Free For All #1|FFA #1|eu.example|ffa1\n\
us|2|ctf1|Capture The Flag|CTF|us.example|ctf1\n\
eu|1|ffa2|Free For All #2|FFA #2|eu.example|ffa2\n";

#[test]
fn parse_groups_servers_by_region_in_first_seen_order() {
    let g = parse_config(SERVERS, REGIONS).unwrap();
    assert_eq!(g.protocol, 8);
    assert_eq!(g.country, "");
    assert_eq!(g.data.len(), 2);
    assert_eq!(g.data[0].id, "eu");
    assert_eq!(g.data[0].name, "Europe");
    assert_eq!(g.data[1].id, "us");
    assert_eq!(g.data[1].name, "United States");
    let eu: Vec<&str> = g.data[0].games.iter().map(|s| s.id.as_str()).collect();
    assert_eq!(eu, vec!["ffa1", "ffa2"]);
    assert_eq!(g.data[1].games.len(), 1);
}

#[test]
fn parse_conserves_server_count_and_names_regions_from_table() {
    let g = parse_config(SERVERS, REGIONS).unwrap();
    let total: usize = g.data.iter().map(|r| r.games.len()).sum();
    assert_eq!(total, 3);
    for r in &g.data {
        let expected = match r.id.as_str() {
            "eu" => "Europe",
            "us" => "United States",
            _ => panic!("unexpected region"),
        };
        assert_eq!(r.name, expected);
    }
}

#[test]
fn parse_reads_every_server_field() {
    let g = parse_config(SERVERS, REGIONS).unwrap();
    let s = &g.data[1].games[0];
    assert_eq!(s.ty, 2);
    assert_eq!(s.id, "ctf1");
    assert_eq!(s.name, "Capture The Flag");
    assert_eq!(s.name_short, "CTF");
    assert_eq!(s.host, "us.example");
    assert_eq!(s.path, "ctf1");
    assert_eq!(s.players, None);
    assert_eq!(s.url, "");
    assert_eq!(s.url(), "us.example/ctf1");
}

#[test]
fn parse_skips_empty_lines_and_ignores_extra_fields() {
    let g = parse_config("\neu|+7|a|A|a|h|p|extra\n\n", "eu|Europe|x\n").unwrap();
    assert_eq!(g.data.len(), 1);
    assert_eq!(g.data[0].name, "Europe");
    assert_eq!(g.data[0].games[0].ty, 7);
    assert_eq!(g.data[0].games[0].path, "p");
}

#[test]
fn parse_of_empty_documents_is_an_empty_directory() {
    let g = parse_config("", "").unwrap();
    assert!(g.data.is_empty());
}

#[test]
fn parse_rejects_unknown_region() {
    let r = parse_config("eu|1|a|A|a|h|p\nmars|1|b|B|b|h|p\n", "eu|Europe\n");
    assert_eq!(r.unwrap_err(), ParseError::UnknownRegion);
}

#[test]
fn parse_rejects_server_record_with_missing_field() {
    let r = parse_config("eu|1|a|A|a|h\n", "eu|Europe\n");
    assert_eq!(r.unwrap_err(), ParseError::MalformedServerRecord);
}

#[test]
fn parse_rejects_non_numeric_or_oversized_type() {
    let r = parse_config("eu|x|a|A|a|h|p\n", "eu|Europe\n");
    assert_eq!(r.unwrap_err(), ParseError::MalformedServerRecord);
    let r = parse_config("eu|256|a|A|a|h|p\n", "eu|Europe\n");
    assert_eq!(r.unwrap_err(), ParseError::MalformedServerRecord);
}

#[test]
fn parse_rejects_region_record_without_name() {
    let r = parse_config("eu|1|a|A|a|h|p\n", "eu\n");
    assert_eq!(r.unwrap_err(), ParseError::MalformedRegionRecord);
}

#[test]
fn first_failing_record_decides_the_error() {
    let r = parse_config("mars|1|a|A|a|h|p\neu|1|a\n", "eu|Europe\n");
    assert_eq!(r.unwrap_err(), ParseError::UnknownRegion);
    let r = parse_config("eu|1|a\nmars|1|a|A|a|h|p\n", "eu|Europe\n");
    assert_eq!(r.unwrap_err(), ParseError::MalformedServerRecord);
}

#[test]
fn later_region_line_overrides_earlier_name() {
    let g = parse_config("eu|1|a|A|a|h|p\n", "eu|Old\neu|New\n").unwrap();
    assert_eq!(g.data[0].name, "New");
}

#[test]
fn fetch_config_reports_missing_document_and_parse_error() {
    assert_eq!(
        fetch_config(None, Some("eu|Europe\n".to_string())).unwrap_err(),
        RefreshError::Fetch
    );
    assert_eq!(
        fetch_config(Some("eu|1|a\n".to_string()), None).unwrap_err(),
        RefreshError::Fetch
    );
    assert_eq!(
        fetch_config(Some("x|1|a|A|a|h|p\n".to_string()), Some("eu|Europe\n".to_string()))
            .unwrap_err(),
        RefreshError::Parse(ParseError::UnknownRegion)
    );
    let g = fetch_config(Some(SERVERS.to_string()), Some(REGIONS.to_string())).unwrap();
    assert_eq!(g.data.len(), 2);
}

#[test]
fn url_prefers_stored_address() {
    let mut s = ServerSpec {
        url: String::new(),
        ty: 1,
        id: "ffa".to_string(),
        name: "FFA".to_string(),
        name_short: "F".to_string(),
        players: None,
        host: "h.example".to_string(),
        path: "ffa".to_string(),
    };
    assert_eq!(s.url(), "h.example/ffa");
    s.url = "https://elsewhere/x".to_string();
    assert_eq!(s.url(), "https://elsewhere/x");
}

#[test]
fn split_keeps_empty_pieces() {
    assert_eq!(split_str("a||b|", '|'), vec!["a", "", "b", ""]);
    assert_eq!(split_str("", '|'), vec![""]);
    assert_eq!(split_str("héllo|wörld", '|'), vec!["héllo", "wörld"]);
}

#[test]
fn parse_u8_follows_from_str() {
    assert_eq!(parse_u8("0"), Some(0));
    assert_eq!(parse_u8("255"), Some(255));
    assert_eq!(parse_u8("007"), Some(7));
    assert_eq!(parse_u8("+12"), Some(12));
    assert_eq!(parse_u8("256"), None);
    assert_eq!(parse_u8("99999999999999999999"), None);
    assert_eq!(parse_u8(""), None);
    assert_eq!(parse_u8("+"), None);
    assert_eq!(parse_u8("-1"), None);
    assert_eq!(parse_u8(" 1"), None);
    for n in 0..=300u32 {
        assert_eq!(parse_u8(&n.to_string()), n.to_string().parse::<u8>().ok());
    }
}
