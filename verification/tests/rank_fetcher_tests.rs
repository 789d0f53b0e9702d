use leagueaccounts::models::RankInfo;
use leagueaccounts::rank_fetcher::{title_case, HtmlDocument, RankFetcher};

#[test]
fn parses_current_rank_and_level() {
    let html_doc = r#"
        <html><head><meta name="description" content="Hide on bush#KR1 / Challenger 1 1952LP / 248Win 186Lose Win rate 57%"/></head>
        <body><img src="https://opgg-static.akamaized.net/meta/images/profile_icons/profileIcon6.jpg"/><div><span>909</span></div></body></html>
        "#;
    let soup = HtmlDocument::parse_document(html_doc);
    let fetcher = RankFetcher::new();
    assert_eq!(
        fetcher.parse_current_rank_from_opgg(&soup, html_doc),
        RankInfo {
            tier: "Challenger".into(),
            division: String::new(),
            lp: "1952".into(),
            ..RankInfo::default()
        }
    );
    assert_eq!(fetcher.parse_level_from_opgg(&soup, html_doc), "909");
}

#[test]
fn parses_unranked_level_from_description() {
    let soup = HtmlDocument::parse_document(r#"<meta name="description" content="Faker#T 1 / Lv. 71"/>"#);
    let fetcher = RankFetcher::new();
    assert_eq!(
        fetcher.parse_current_rank_from_opgg(&soup, ""),
        RankInfo {
            tier: "Unranked".into(),
            ..RankInfo::default()
        }
    );
    assert_eq!(fetcher.parse_level_from_opgg(&soup, ""), "71");
}

#[test]
fn parses_last_season_history() {
    let payload = r#""season":"S2025 ","rank_entries":{"high_rank_info":{"tier":"challenger","lp":"1,255","tier_image_url":"","tier_mini_image_url":""},"rank_info":{"tier":"master","lp":"285","tier_image_url":"","tier_mini_image_url":""}}"#;
    let fetcher = RankFetcher::new();
    assert_eq!(
        fetcher.parse_last_season_from_opgg(payload),
        ("Challenger 1255LP".to_string(), "Master 285LP".to_string())
    );
}

#[test]
fn builds_opgg_url_with_encoded_name_and_tag() {
    let fetcher = RankFetcher::new();
    assert_eq!(
        fetcher.build_opgg_url("kr", "Hide on bush#KR1"),
        "https://op.gg/lol/summoners/kr/Hide%20on%20bush-KR1"
    );
    assert_eq!(
        fetcher.build_opgg_url("euw", "Solo"),
        "https://op.gg/lol/summoners/euw/Solo"
    );
}

#[test]
fn splits_riot_id_at_last_hash() {
    assert_eq!(
        RankFetcher::split_riot_id(" A#B #TAG "),
        ("A#B".to_string(), "TAG".to_string())
    );
    assert_eq!(RankFetcher::split_riot_id("Plain"), ("Plain".to_string(), String::new()));
}

#[test]
fn normalizes_tiers_divisions_and_lp() {
    let fetcher = RankFetcher::new();
    assert_eq!(
        fetcher.normalize_rank("GOLD", "2", "1,234"),
        ("Gold".to_string(), "II".to_string(), "1234".to_string())
    );
    assert_eq!(
        fetcher.normalize_rank("challenger", "1", "900"),
        ("Challenger".to_string(), String::new(), "900".to_string())
    );
}

#[test]
fn reads_division_from_tier_label() {
    let fetcher = RankFetcher::new();
    assert_eq!(fetcher.division_from_label("GOLD 2"), "2");
    assert_eq!(fetcher.division_from_label("MASTER"), "");
}

#[test]
fn parses_rank_text_or_nothing() {
    let fetcher = RankFetcher::new();
    assert_eq!(
        fetcher.parse_rank_text("Name#TAG / Diamond 3 45LP / 10Win"),
        Some(("Diamond".to_string(), "III".to_string(), "45".to_string()))
    );
    assert_eq!(fetcher.parse_rank_text("Name#TAG / Lv. 30"), None);
}

#[test]
fn cleans_lp_values() {
    let fetcher = RankFetcher::new();
    assert_eq!(fetcher.clean_lp_value(" \"1,255\" "), "1255");
    assert_eq!(fetcher.clean_lp_value("null"), "");
    assert_eq!(fetcher.clean_lp_value(""), "");
}

#[test]
fn formats_history_ranks() {
    let fetcher = RankFetcher::new();
    assert_eq!(fetcher.format_history_rank("platinum 4", "25"), "Platinum IV 25LP");
    assert_eq!(fetcher.format_history_rank("master", ""), "Master");
    assert_eq!(fetcher.format_history_rank("  ", "10"), "");
}

#[test]
fn title_cases_each_word() {
    assert_eq!(title_case("hELLO wORLD"), "Hello World");
    assert_eq!(title_case("élan vital"), "Élan Vital");
}

#[test]
fn missing_history_reads_unranked() {
    let fetcher = RankFetcher::new();
    assert_eq!(
        fetcher.parse_last_season_from_opgg("nothing here"),
        ("Unranked".to_string(), "Unranked".to_string())
    );
}

#[test]
fn page_without_profile_icon_is_refused() {
    let fetcher = RankFetcher::new();
    assert!(fetcher.rank_from_page("<html></html>").is_err());
    assert_eq!(fetcher.rank_from_response(Ok("<html></html>".to_string())), RankInfo::error());
    assert_eq!(fetcher.rank_from_response(Err("timeout".to_string())), RankInfo::error());
}

#[test]
fn page_with_escaped_payload_gives_full_rank() {
    let fetcher = RankFetcher::new();
    let page = r#"<html><head><meta name="description" content="Faker#T1 / Gold 2 40LP / 10Win"/></head><body>profile_icons/profileIcon7.jpg &quot;season&quot;:&quot;S2025&quot;,&quot;rank_entries&quot;:{&quot;high_rank_info&quot;:{&quot;tier&quot;:&quot;gold 1&quot;,&quot;lp&quot;:&quot;20&quot;},&quot;rank_info&quot;:{&quot;tier&quot;:&quot;gold 3&quot;,&quot;lp&quot;:null}}</body></html>"#;
    let rank = fetcher.rank_from_response(Ok(page.to_string()));
    assert_eq!(rank.tier, "Gold");
    assert_eq!(rank.division, "II");
    assert_eq!(rank.lp, "40");
    assert_eq!(rank.reached_last_season, "Gold I 20LP");
    assert_eq!(rank.finished_last_season, "Gold III");
}

#[test]
fn defaults_fill_missing_tier_and_history() {
    let fetcher = RankFetcher::new();
    let rank = fetcher.with_defaults(RankInfo::default());
    assert_eq!(rank.tier, "Unranked");
    assert_eq!(rank.reached_last_season, "Unranked");
    assert_eq!(rank.finished_last_season, "Unranked");
    assert_eq!(rank.level, "");
}

fn groups(values: &[Option<&str>]) -> Vec<Option<String>> {
    values.iter().map(|v| v.map(|s| s.to_string())).collect()
}

#[test]
fn season_from_captures_takes_the_first_entry_with_a_rank() {
    let fetcher = RankFetcher::new();
    let empty = groups(&[Some("whole"), Some("S2024"), Some(""), Some("null"), Some(""), Some("null")]);
    let ranked = groups(&[Some("whole"), Some("S2025"), Some("platinum 4"), Some("\"25\""), Some("gold 4"), Some("null")]);
    assert_eq!(
        fetcher.season_from_captures(&vec![empty.clone(), ranked]),
        ("Platinum IV 25LP".to_string(), "Gold IV".to_string())
    );
    assert_eq!(
        fetcher.season_from_captures(&vec![empty]),
        ("Unranked".to_string(), "Unranked".to_string())
    );
    let only_final = groups(&[Some("whole"), Some("S2025"), Some(""), Some("null"), Some("master"), Some("\"1,200\"")]);
    assert_eq!(
        fetcher.season_from_captures(&vec![only_final]),
        ("Master 1200LP".to_string(), "Master 1200LP".to_string())
    );
}

#[test]
fn description_comes_from_the_first_meta_tag_with_content() {
    let soup = HtmlDocument::parse_document(
        r#"<meta name="description"/><meta name="keywords" content="Lv. 5"/><meta name="description" content="Faker#T 1 / Lv. 71"/>"#,
    );
    assert_eq!(RankFetcher::new().parse_level_from_opgg(&soup, ""), "71");
}

#[test]
fn first_present_value_skips_missing_values() {
    assert_eq!(
        leagueaccounts::rank_fetcher::first_present_value(&groups(&[None, Some("a"), Some("b")])),
        Some("a".to_string())
    );
    assert_eq!(leagueaccounts::rank_fetcher::first_present_value(&groups(&[None])), None);
}
