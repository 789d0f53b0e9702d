use leagueaccounts::account_manager::{
    has_account, AccountManager, EditField, ImportAccount, KEYRING_SERVICE,
};
use leagueaccounts::models::{Account, AccountKey, RankInfo};
use leagueaccounts::rank_fetcher::RankProvider;
use std::path::PathBuf;
use std::sync::Arc;

struct FixedProvider;

impl RankProvider for FixedProvider {
    fn fetch_rank(&self, _account: &Account) -> RankInfo {
        RankInfo {
            tier: "Gold".into(),
            division: "II".into(),
            lp: "50".into(),
            level: "100".into(),
            reached_last_season: "Platinum IV".into(),
            finished_last_season: "Gold I".into(),
        }
    }
}

fn manager() -> AccountManager<FixedProvider> {
    AccountManager::with_path(PathBuf::from("accounts.json"), Arc::new(FixedProvider))
}

fn account(id: &str, region: &str, tier: &str) -> Account {
    Account {
        account_id: id.into(),
        name: format!("{id}#EUW"),
        region: region.into(),
        region_display: "EUW".into(),
        tier: tier.into(),
        reached_last_season: "N/A".into(),
        finished_last_season: "N/A".into(),
        ..Account::default()
    }
}

fn key(id: &str, region: &str) -> AccountKey {
    AccountKey { account_id: id.into(), region: region.into() }
}

#[test]
fn new_needs_an_accounts_file() {
    let provider = Arc::new(FixedProvider);
    let missing: Result<PathBuf, String> = Err("home directory is unavailable".into());
    assert_eq!(
        AccountManager::new(provider.clone(), missing).err(),
        Some("home directory is unavailable".to_string())
    );
    let found: Result<PathBuf, String> = Ok(PathBuf::from("x.json"));
    let m = AccountManager::new(provider, found).ok().unwrap();
    assert!(m.accounts.is_empty());
    assert_eq!(m.accounts_file, PathBuf::from("x.json"));
    assert_eq!(KEYRING_SERVICE, "LeagueAccounts");
}

#[test]
fn refreshed_ranks_are_applied_to_every_account() {
    let mut m = manager();
    m.accounts = (0..4).map(|i| account(&i.to_string(), "euw", "Unranked")).collect();
    let results: Vec<(usize, RankInfo)> = m
        .rank_jobs()
        .into_iter()
        .map(|(index, a)| (index, m.rank_fetcher.fetch_rank(&a)))
        .collect();
    m.refresh_ranks(results);
    assert!(m.accounts.iter().all(|a| a.tier == "Gold" && a.level == "100"));
}

#[test]
fn rank_result_for_a_missing_position_changes_nothing() {
    let mut m = manager();
    m.accounts = vec![account("a", "euw", "Silver")];
    m.refresh_ranks(vec![(5, RankInfo::error())]);
    assert_eq!(m.accounts, vec![account("a", "euw", "Silver")]);
}

#[test]
fn added_accounts_are_kept_in_rank_order() {
    let mut m = manager();
    m.add_account(account("low", "euw", "Iron"));
    m.add_account(account("high", "euw", "Diamond"));
    m.add_account(account("mid", "euw", "Gold"));
    let ids: Vec<&str> = m.accounts.iter().map(|a| a.account_id.as_str()).collect();
    assert_eq!(ids, vec!["high", "mid", "low"]);
}

#[test]
fn delete_removes_only_the_matching_account() {
    let mut m = manager();
    m.accounts = vec![account("a", "euw", "Gold"), account("a", "na", "Gold"), account("b", "euw", "Gold")];
    m.delete_account("a", "euw");
    assert!(m.account(&key("a", "euw")).is_none());
    assert!(m.account(&key("a", "na")).is_some());
    assert_eq!(m.accounts.len(), 2);
}

#[test]
fn lookup_and_rank_update_by_key() {
    let mut m = manager();
    m.accounts = vec![account("a", "euw", "Gold"), account("b", "euw", "Gold")];
    assert_eq!(m.index_of(&key("b", "euw")), 1);
    assert_eq!(m.index_of(&key("zz", "euw")), 0);
    m.apply_rank_info(&key("b", "euw"), &RankInfo::error());
    assert_eq!(m.account(&key("b", "euw")).unwrap().tier, "Error");
    assert_eq!(m.account(&key("a", "euw")).unwrap().tier, "Gold");
    m.account_mut(&key("a", "euw")).unwrap().level = "30".into();
    assert_eq!(m.accounts[0].level, "30");
}

#[test]
fn edits_set_name_or_description() {
    let mut m = manager();
    m.accounts = vec![account("a", "euw", "Gold")];
    assert!(m.edit_account(&key("a", "euw"), EditField::Name, "New#EUW".into()));
    assert!(m.edit_account(&key("a", "euw"), EditField::Description, "main".into()));
    assert!(!m.edit_account(&key("b", "euw"), EditField::Name, "x".into()));
    assert_eq!(m.accounts[0].name, "New#EUW");
    assert_eq!(m.accounts[0].description, "main");
}

#[test]
fn accounts_for_file_never_hold_passwords() {
    let mut m = manager();
    let mut a = account("id", "euw", "Gold");
    a.password = "secret".into();
    m.accounts.push(a);
    let saved = m.accounts_for_file();
    assert_eq!(saved.len(), 1);
    assert_eq!(saved[0].password, "");
    assert_eq!(saved[0].account_id, "id");
    assert_eq!(m.accounts[0].password, "secret");
}

#[test]
fn loading_fills_region_labels_and_stored_passwords() {
    let mut m = manager();
    let mut first = account("a", "kr", "Iron");
    first.region_display = String::new();
    let second = account("b", "euw", "Gold");
    m.load_accounts(vec![first, second], vec!["pw-a".into(), String::new()]);
    assert_eq!(m.accounts[0].account_id, "b");
    assert_eq!(m.accounts[0].password, "");
    assert_eq!(m.accounts[1].region_display, "KR");
    assert_eq!(m.accounts[1].password, "pw-a");
}

#[test]
fn export_fills_in_missing_passwords() {
    let mut m = manager();
    let mut a = account("a", "euw", "Gold");
    a.password = "held".into();
    m.accounts = vec![a, account("b", "euw", "Gold")];
    let exported = m.export_accounts(vec!["ignored".into(), "stored".into()]);
    assert_eq!(exported[0].password, "held");
    assert_eq!(exported[1].password, "stored");
    assert_eq!(m.accounts[1].password, "stored");
}

fn import(id: &str, region: &str) -> ImportAccount {
    ImportAccount { account_id: id.into(), region: region.into(), ..ImportAccount::default() }
}

#[test]
fn import_skips_incomplete_and_known_accounts() {
    let mut m = manager();
    m.accounts = vec![account("Known", "euw", "Gold")];
    let mut full = import("  new  ", " kr ");
    full.tier = "Silver".into();
    full.password = "pw".into();
    let summary = m.import_accounts(vec![
        full,
        import("", "euw"),
        import("x", "  "),
        import("KNOWN", "euw"),
        import("new", "kr"),
    ]);
    assert_eq!((summary.added, summary.skipped), (1, 4));
    assert_eq!(summary.imported.len(), 1);
    let added = &summary.imported[0];
    assert_eq!(added.account_id, "new");
    assert_eq!(added.region, "kr");
    assert_eq!(added.region_display, "KR");
    assert_eq!(added.tier, "Silver");
    assert_eq!(added.reached_last_season, "N/A");
    assert_eq!(added.password, "pw");
    assert_eq!(m.accounts.len(), 2);
}

#[test]
fn importing_twice_adds_nothing_the_second_time() {
    let mut m = manager();
    let data = vec![import("a", "euw"), import("b", "na"), import("", "na")];
    let first = m.import_accounts(data.clone());
    assert_eq!((first.added, first.skipped), (2, 1));
    let second = m.import_accounts(data);
    assert_eq!((second.added, second.skipped), (0, 3));
    assert_eq!(m.accounts.len(), 2);
}

#[test]
fn held_accounts_match_ids_ignoring_case() {
    let accounts = vec![account("Main", "euw", "Gold")];
    assert!(has_account(&accounts, "mAIN", "euw"));
    assert!(!has_account(&accounts, "main", "EUW"));
    assert!(!has_account(&accounts, "other", "euw"));
}

fn as_import(a: &Account) -> ImportAccount {
    ImportAccount {
        account_id: a.account_id.clone(),
        name: a.name.clone(),
        region: a.region.clone(),
        region_display: a.region_display.clone(),
        password: a.password.clone(),
        description: a.description.clone(),
        tier: a.tier.clone(),
        division: a.division.clone(),
        lp: a.lp.clone(),
        level: a.level.clone(),
        reached_last_season: a.reached_last_season.clone(),
        finished_last_season: a.finished_last_season.clone(),
    }
}

#[test]
fn exported_accounts_import_unchanged_on_a_fresh_install() {
    let mut m = manager();
    let mut first = account("a", "euw", "Gold");
    first.password = "pw".into();
    m.accounts = vec![first, account("b", "na", "Iron")];
    let exported = m.export_accounts(vec![String::new(), "stored".into()]);
    let mut fresh = manager();
    let summary = fresh.import_accounts(exported.iter().map(as_import).collect());
    assert_eq!((summary.added, summary.skipped), (2, 0));
    assert_eq!(fresh.accounts, m.accounts);
    assert_eq!(fresh.accounts[1].password, "stored");
}
