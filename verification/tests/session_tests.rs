use leagueaccounts::credentials::{
    credential_target, credential_username, legacy_entry_is_for, legacy_user_to_migrate, SERVICE,
};
use leagueaccounts::models::{Account, AccountKey};
use leagueaccounts::session::{
    can_play_with, division_number_of, multi_add_entry, new_account, next_selection, password_for,
    start_multi_add, table_row, visible_accounts, AddError, CopyCycle, CopyTarget, MultiAddError,
    RankRefresh, RefreshError,
};

fn ranked(tier: &str, division: &str) -> Account {
    Account { tier: tier.into(), division: division.into(), ..Account::default() }
}

fn named(id: &str, name: &str, tier: &str) -> Account {
    Account {
        account_id: id.into(),
        name: name.into(),
        region: "euw".into(),
        tier: tier.into(),
        ..Account::default()
    }
}

#[test]
fn division_numbers() {
    assert_eq!(division_number_of(" iv "), Some(4));
    assert_eq!(division_number_of("2"), Some(2));
    assert_eq!(division_number_of("V"), None);
}

#[test]
fn master_friends() {
    assert!(can_play_with(&ranked("Master", ""), "Master", "I"));
    assert!(can_play_with(&ranked("diamond", "I"), "master", "IV"));
    assert!(!can_play_with(&ranked("Diamond", "II"), "Master", "I"));
    assert!(!can_play_with(&ranked("Grandmaster", ""), "Master", "I"));
}

#[test]
fn diamond_friends() {
    assert!(can_play_with(&ranked("Diamond", "IV"), "Diamond", "II"));
    assert!(!can_play_with(&ranked("Diamond", "IV"), "Diamond", "I"));
    assert!(can_play_with(&ranked("Emerald", "I"), "Diamond", "IV"));
    assert!(!can_play_with(&ranked("Emerald", "I"), "Diamond", "III"));
    assert!(can_play_with(&ranked("Master", ""), "Diamond", "I"));
    assert!(!can_play_with(&ranked("Master", ""), "Diamond", "II"));
}

#[test]
fn emerald_and_platinum_friends() {
    assert!(can_play_with(&ranked("Platinum", "IV"), "Emerald", "III"));
    assert!(can_play_with(&ranked("Diamond", "IV"), "Emerald", "I"));
    assert!(!can_play_with(&ranked("Diamond", "IV"), "Emerald", "II"));
    assert!(can_play_with(&ranked("Gold", "I"), "Platinum", "I"));
    assert!(!can_play_with(&ranked("Silver", "I"), "Platinum", "I"));
}

#[test]
fn lower_tier_friends() {
    assert!(can_play_with(&ranked("Bronze", ""), "Iron", "I"));
    assert!(!can_play_with(&ranked("Gold", ""), "Iron", "I"));
    assert!(can_play_with(&ranked("Platinum", ""), "Gold", "I"));
    assert!(can_play_with(&ranked("Silver", ""), "Gold", "I"));
    assert!(!can_play_with(&ranked("Bronze", ""), "Gold", "I"));
    assert!(can_play_with(&ranked("Iron", ""), "Bronze", "I"));
    assert!(!can_play_with(&ranked("Unranked", ""), "Bronze", "I"));
    assert!(!can_play_with(&ranked("Gold", ""), "Challenger", "I"));
}

#[test]
fn table_filters_by_search_and_friend() {
    let accounts = vec![
        named("first", "Alpha#EUW", "Gold"),
        named("second", "Beta#EUW", "Iron"),
        named("third", "Gamma#EUW", "Silver"),
    ];
    let ids = |v: Vec<Account>| v.into_iter().map(|a| a.account_id).collect::<Vec<_>>();
    assert_eq!(ids(visible_accounts(&accounts, "  ", "Show All", "I")), vec!["first", "second", "third"]);
    assert_eq!(ids(visible_accounts(&accounts, " BETA ", "Show All", "I")), vec!["second"]);
    assert_eq!(ids(visible_accounts(&accounts, "ir", "Show All", "I")), vec!["first", "third"]);
    assert_eq!(ids(visible_accounts(&accounts, "", "Gold", "I")), vec!["first", "third"]);
    assert_eq!(ids(visible_accounts(&accounts, "", "show all", "I")), Vec::<String>::new());
}

#[test]
fn add_form_errors_and_success() {
    let existing = vec![named("Taken", "X#EUW", "Gold")];
    assert_eq!(
        new_account(&existing, " ", "n", "EUW", "pw", "").err(),
        Some(AddError::MissingFields)
    );
    assert_eq!(
        new_account(&existing, "id", "n", "Mars", "pw", "").err(),
        Some(AddError::InvalidRegion)
    );
    assert_eq!(
        new_account(&existing, "taken", "n", "EUW", "pw", "").err(),
        Some(AddError::Duplicate)
    );
    let a = new_account(&existing, " id ", " Name#TAG ", " KR ", " pw ", " note ").ok().unwrap();
    assert_eq!(a.account_id, "id");
    assert_eq!(a.name, "Name#TAG");
    assert_eq!(a.region, "kr");
    assert_eq!(a.region_display, "KR");
    assert_eq!(a.password, "pw");
    assert_eq!(a.description, "note");
    assert_eq!(a.tier, "Unranked");
    assert_eq!(a.division, "");
    assert_eq!(a.reached_last_season, "N/A");
    assert_eq!(a.finished_last_season, "N/A");
    assert_eq!(AddError::Duplicate.message(), "This account is already added.");
}

#[test]
fn multi_add_reads_lines() {
    assert_eq!(start_multi_add("Moon", "a--b--c").err(), Some(MultiAddError::InvalidRegion));
    assert_eq!(start_multi_add("EUW", " \n ").err(), Some(MultiAddError::EmptyInput));
    let run = start_multi_add(" NA ", "\n one--N#1--p \r\n\n  two---N#2---q\n").ok().unwrap();
    assert_eq!(run.region, "na");
    assert_eq!(run.region_display, "NA");
    assert_eq!(run.lines, vec!["one--N#1--p".to_string(), "two---N#2---q".to_string()]);
    assert_eq!(
        MultiAddError::EmptyInput.message(),
        "Please enter account data in the multi-add field."
    );
}

#[test]
fn multi_add_entries() {
    let existing = vec![Account { account_id: "Held".into(), region: "na".into(), ..Account::default() }];
    let mut added: Vec<Account> = Vec::new();
    let a = multi_add_entry(&existing, &added, "na", "NA", "one -- N#1 -- p").unwrap();
    assert_eq!((a.account_id.as_str(), a.name.as_str(), a.password.as_str()), ("one", "N#1", "p"));
    assert_eq!(a.region, "na");
    assert_eq!(a.region_display, "NA");
    assert_eq!(a.tier, "Unranked");
    added.push(a);
    assert!(multi_add_entry(&existing, &added, "na", "NA", "ONE--x--y").is_none());
    assert!(multi_add_entry(&existing, &added, "na", "NA", "held--x--y").is_none());
    assert!(multi_add_entry(&existing, &added, "na", "NA", "two--x").is_none());
    assert!(multi_add_entry(&existing, &added, "na", "NA", "two-- --y").is_none());
    let b = multi_add_entry(&existing, &added, "na", "NA", "a-b---N--2---pw").unwrap();
    assert_eq!((b.account_id.as_str(), b.name.as_str(), b.password.as_str()), ("a-b", "N--2", "pw"));
}

fn key(id: &str) -> AccountKey {
    AccountKey { account_id: id.into(), region: "euw".into() }
}

#[test]
fn copy_alternates_between_id_and_password() {
    let mut cycle = CopyCycle::new();
    assert_eq!(cycle.next(&key("a")), CopyTarget::AccountId);
    assert_eq!(cycle.next(&key("a")), CopyTarget::Password);
    assert_eq!(cycle.next(&key("a")), CopyTarget::AccountId);
    assert_eq!(cycle.next(&key("b")), CopyTarget::AccountId);
    assert_eq!(cycle.counter, 1);
    cycle.counter = 255;
    assert_eq!(cycle.next(&key("b")), CopyTarget::Password);
    assert_eq!(cycle.counter, 0);
    assert_eq!(cycle.next(&key("b")), CopyTarget::AccountId);
}

#[test]
fn selection_after_delete() {
    let accounts = vec![named("a", "A", "Gold"), named("b", "B", "Gold")];
    assert_eq!(next_selection(&accounts, 1).map(|k| k.account_id), Some("b".to_string()));
    assert_eq!(next_selection(&accounts, 7).map(|k| k.account_id), Some("b".to_string()));
    assert_eq!(next_selection(&accounts, 0).map(|k| k.account_id), Some("a".to_string()));
    assert!(next_selection(&Vec::new(), 0).is_none());
}

#[test]
fn table_rows_show_placeholders() {
    let mut a = named("id", "Name", "Unranked");
    a.region_display = "EUW".into();
    a.description = "d".into();
    assert_eq!(
        table_row(&a),
        vec!["id", "Name", "EUW", "...", "...", "...", "...", "N/A", "N/A", "d"]
    );
    a.tier = "Gold".into();
    a.division = "II".into();
    a.lp = "12".into();
    a.level = "300".into();
    a.reached_last_season = "Gold I".into();
    assert_eq!(
        table_row(&a),
        vec!["id", "Name", "EUW", "300", "Gold", "II", "12", "Gold I", "N/A", "d"]
    );
}

#[test]
fn password_prefers_the_held_one() {
    let mut a = named("id", "Name", "Gold");
    assert_eq!(password_for(&a, Some("stored".into())), "stored");
    assert_eq!(password_for(&a, None), "");
    a.password = "held".into();
    assert_eq!(password_for(&a, Some("stored".into())), "held");
}

#[test]
fn rank_refresh_completes_after_every_result() {
    let mut refresh = RankRefresh::new();
    assert_eq!(refresh.check_refresh(0), Err(RefreshError::NoAccounts));
    assert_eq!(refresh.check_refresh(3), Ok(()));
    refresh.begin(2);
    assert!(refresh.is_running());
    assert_eq!(refresh.check_refresh(3), Err(RefreshError::AlreadyRunning));
    refresh.record_update();
    assert!(!refresh.finish());
    refresh.begin(1);
    refresh.record_update();
    assert!(!refresh.finish());
    refresh.record_update();
    assert!(refresh.finish());
    assert!(!refresh.is_running());
    assert!(!refresh.finish());
    assert_eq!(RefreshError::AlreadyRunning.message(), "A rank refresh is already running.");
}

#[test]
fn credential_names() {
    assert_eq!(SERVICE, "LeagueAccounts");
    let user = credential_username("euw", "main");
    assert_eq!(user, "euw:main");
    assert_eq!(credential_target(&user, SERVICE), "euw:main@LeagueAccounts");
    assert!(legacy_entry_is_for(Some("euw:main"), "euw:main"));
    assert!(!legacy_entry_is_for(Some("euw:alt"), "euw:main"));
    assert!(!legacy_entry_is_for(None, "euw:main"));
    assert_eq!(legacy_user_to_migrate(Some("euw:alt"), "euw:main"), Some("euw:alt".to_string()));
    assert_eq!(legacy_user_to_migrate(Some("euw:main"), "euw:main"), None);
    assert_eq!(legacy_user_to_migrate(None, "euw:main"), None);
}
