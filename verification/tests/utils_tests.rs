use leagueaccounts::models::Account;
use leagueaccounts::utils::{
    rank_sort_key, region_display, region_from_display, sort_accounts, REGION_MAP, TIER_ORDER,
};

fn ranked(id: &str, tier: &str, division: &str, lp: &str) -> Account {
    Account {
        account_id: id.into(),
        tier: tier.into(),
        division: division.into(),
        lp: lp.into(),
        ..Account::default()
    }
}

#[test]
fn rank_sort_key_matches_python_order() {
    assert!(rank_sort_key("Challenger", "", "1") < rank_sort_key("Master", "", "999"));
    assert!(rank_sort_key("Gold", "I", "100") < rank_sort_key("Gold", "II", "999"));
    assert!(rank_sort_key("Gold", "II", "100") < rank_sort_key("Gold", "II", "50"));
}

#[test]
fn rank_sort_key_exact_values() {
    assert_eq!(rank_sort_key("gold", " ii ", " 75 "), (6, 1, -75));
    assert_eq!(rank_sort_key("Mystery", "V", "lots"), (12, 9, 0));
    assert_eq!(rank_sort_key("Iron", "4", "-3"), (9, 3, 3));
}

#[test]
fn sorting_is_stable_and_keeps_every_account() {
    let mut accounts = vec![
        ranked("a", "Gold", "II", "10"),
        ranked("b", "Master", "", "5"),
        ranked("c", "Gold", "II", "10"),
        ranked("d", "Unranked", "", ""),
        ranked("e", "Gold", "I", "0"),
    ];
    sort_accounts(&mut accounts);
    let ids: Vec<&str> = accounts.iter().map(|a| a.account_id.as_str()).collect();
    assert_eq!(ids, vec!["b", "e", "a", "c", "d"]);
}

#[test]
fn sorting_an_empty_list_is_fine() {
    let mut accounts: Vec<Account> = Vec::new();
    sort_accounts(&mut accounts);
    assert!(accounts.is_empty());
}

#[test]
fn regions_round_trip_between_label_and_code() {
    for (label, code) in REGION_MAP.iter() {
        assert_eq!(region_from_display(label), Some(*code));
        assert_eq!(region_display(code), *label);
    }
    assert_eq!(region_from_display("euw"), None);
    assert_eq!(region_display("pbe"), "pbe");
}

#[test]
fn tier_order_lists_twelve_tiers() {
    assert_eq!(TIER_ORDER.len(), 12);
    assert_eq!(TIER_ORDER[0], "Challenger");
    assert_eq!(TIER_ORDER[11], "Error");
}
