//! The records the application keeps: accounts, their lookup keys, and the
//! rank information a provider reports.

use vstd::prelude::*;

verus! {

/// One League account tracked by the application.
///
/// The password is only held while the application runs; the accounts file
/// never stores it (see the serialised copy in the application).
#[derive(Clone, Debug, PartialEq, Eq)]
pub struct Account {
    pub account_id: String,
    pub name: String,
    pub region: String,
    pub region_display: String,
    pub password: String,
    pub description: String,
    pub tier: String,
    pub division: String,
    pub lp: String,
    pub level: String,
    pub reached_last_season: String,
    pub finished_last_season: String,
}

/// The mathematical model of an [`Account`]: every field as its characters.
pub struct AccountModel {
    pub account_id: Seq<char>,
    pub name: Seq<char>,
    pub region: Seq<char>,
    pub region_display: Seq<char>,
    pub password: Seq<char>,
    pub description: Seq<char>,
    pub tier: Seq<char>,
    pub division: Seq<char>,
    pub lp: Seq<char>,
    pub level: Seq<char>,
    pub reached_last_season: Seq<char>,
    pub finished_last_season: Seq<char>,
}

impl View for Account {
    type V = AccountModel;

    open spec fn view(&self) -> AccountModel {
        AccountModel {
            account_id: self.account_id@,
            name: self.name@,
            region: self.region@,
            region_display: self.region_display@,
            password: self.password@,
            description: self.description@,
            tier: self.tier@,
            division: self.division@,
            lp: self.lp@,
            level: self.level@,
            reached_last_season: self.reached_last_season@,
            finished_last_season: self.finished_last_season@,
        }
    }
}

/// The models of a sequence of accounts.
pub open spec fn models(s: Seq<Account>) -> Seq<AccountModel> {
    s.map_values(|a: Account| a@)
}

/// The tier written for an account that has none: `"Unranked"`.
pub fn default_tier() -> (r: String)
    ensures
        r@ == unranked_text(),
{
    "Unranked".to_owned()
}

/// The season history written for an account that has none: `"N/A"`.
pub fn default_history() -> (r: String)
    ensures
        r@ == no_history_text(),
{
    "N/A".to_owned()
}

pub open spec fn unranked_text() -> Seq<char> {
    "Unranked"@
}

pub open spec fn no_history_text() -> Seq<char> {
    "N/A"@
}

pub open spec fn error_text() -> Seq<char> {
    "Error"@
}

pub open spec fn pending_text() -> Seq<char> {
    "..."@
}

/// `value`, or `fallback` where `value` is empty.
pub open spec fn or_default(value: Seq<char>, fallback: Seq<char>) -> Seq<char> {
    if value.len() == 0 {
        fallback
    } else {
        value
    }
}

fn copy_string(s: &String) -> (r: String)
    ensures
        r == *s,
        r@ == s@,
{
    s.clone()
}

/// `value` cloned, or `fallback` where `value` is empty.
fn or_default_string(value: &String, fallback: &str) -> (r: String)
    ensures
        r@ == or_default(value@, fallback@),
{
    if value.as_str().is_empty() {
        fallback.to_owned()
    } else {
        value.clone()
    }
}

impl Default for Account {
    /// An account with every field empty.
    fn default() -> (r: Self)
        ensures
            r@.account_id.len() == 0 && r@.name.len() == 0 && r@.region.len() == 0
                && r@.region_display.len() == 0 && r@.password.len() == 0
                && r@.description.len() == 0 && r@.tier.len() == 0 && r@.division.len() == 0
                && r@.lp.len() == 0 && r@.level.len() == 0 && r@.reached_last_season.len() == 0
                && r@.finished_last_season.len() == 0,
    {
        Account {
            account_id: String::new(),
            name: String::new(),
            region: String::new(),
            region_display: String::new(),
            password: String::new(),
            description: String::new(),
            tier: String::new(),
            division: String::new(),
            lp: String::new(),
            level: String::new(),
            reached_last_season: String::new(),
            finished_last_season: String::new(),
        }
    }
}

impl Account {
    /// The key that identifies the account: its ID and region.
    pub fn key(&self) -> (k: AccountKey)
        ensures
            k@ == self.key_model(),
    {
        AccountKey { account_id: self.account_id.clone(), region: self.region.clone() }
    }

    pub open spec fn key_model(&self) -> (Seq<char>, Seq<char>) {
        (self.account_id@, self.region@)
    }

    /// Whether the account is the one that `key` names.
    pub fn has_key(&self, key: &AccountKey) -> (b: bool)
        ensures
            b == (self.key_model() == key@),
    {
        self.account_id == key.account_id && self.region == key.region
    }

    /// A field-by-field copy.
    pub fn duplicate(&self) -> (r: Account)
        ensures
            r == *self,
            r@ == self@,
    {
        Account {
            account_id: copy_string(&self.account_id),
            name: copy_string(&self.name),
            region: copy_string(&self.region),
            region_display: copy_string(&self.region_display),
            password: copy_string(&self.password),
            description: copy_string(&self.description),
            tier: copy_string(&self.tier),
            division: copy_string(&self.division),
            lp: copy_string(&self.lp),
            level: copy_string(&self.level),
            reached_last_season: copy_string(&self.reached_last_season),
            finished_last_season: copy_string(&self.finished_last_season),
        }
    }
}

/// The identity of an account: its ID together with its region.
#[derive(Clone, Debug, PartialEq, Eq, Hash)]
pub struct AccountKey {
    pub account_id: String,
    pub region: String,
}

impl View for AccountKey {
    type V = (Seq<char>, Seq<char>);

    open spec fn view(&self) -> (Seq<char>, Seq<char>) {
        (self.account_id@, self.region@)
    }
}

impl AccountKey {
    pub fn duplicate(&self) -> (r: AccountKey)
        ensures
            r == *self,
            r@ == self@,
    {
        AccountKey { account_id: copy_string(&self.account_id), region: copy_string(&self.region) }
    }

    /// Whether both keys name the same account.
    pub fn same_as(&self, other: &AccountKey) -> (b: bool)
        ensures
            b == (self@ == other@),
    {
        self.account_id == other.account_id && self.region == other.region
    }
}

/// Values returned by the rank provider.
#[derive(Clone, Debug, PartialEq, Eq)]
pub struct RankInfo {
    pub tier: String,
    pub division: String,
    pub lp: String,
    pub level: String,
    pub reached_last_season: String,
    pub finished_last_season: String,
}

/// The mathematical model of a [`RankInfo`].
pub struct RankModel {
    pub tier: Seq<char>,
    pub division: Seq<char>,
    pub lp: Seq<char>,
    pub level: Seq<char>,
    pub reached_last_season: Seq<char>,
    pub finished_last_season: Seq<char>,
}

impl View for RankInfo {
    type V = RankModel;

    open spec fn view(&self) -> RankModel {
        RankModel {
            tier: self.tier@,
            division: self.division@,
            lp: self.lp@,
            level: self.level@,
            reached_last_season: self.reached_last_season@,
            finished_last_season: self.finished_last_season@,
        }
    }
}

impl Default for RankInfo {
    /// Rank information with every field empty.
    fn default() -> (r: Self)
        ensures
            r@ == (RankModel {
                tier: Seq::empty(),
                division: Seq::empty(),
                lp: Seq::empty(),
                level: Seq::empty(),
                reached_last_season: Seq::empty(),
                finished_last_season: Seq::empty(),
            }),
    {
        RankInfo {
            tier: String::new(),
            division: String::new(),
            lp: String::new(),
            level: String::new(),
            reached_last_season: String::new(),
            finished_last_season: String::new(),
        }
    }
}

/// What applying `info` to `account` makes of the account: the rank fields
/// are replaced, an empty tier reads `"Unranked"` and empty season history
/// reads `"N/A"`; every other field stays.
pub open spec fn applied(info: RankModel, account: AccountModel) -> AccountModel {
    AccountModel {
        tier: or_default(info.tier, unranked_text()),
        division: info.division,
        lp: info.lp,
        level: info.level,
        reached_last_season: or_default(info.reached_last_season, no_history_text()),
        finished_last_season: or_default(info.finished_last_season, no_history_text()),
        ..account
    }
}

impl RankInfo {
    /// The rank of an account with no ranked games.
    pub fn unranked() -> (r: Self)
        ensures
            r@ == (RankModel {
                tier: unranked_text(),
                division: Seq::empty(),
                lp: Seq::empty(),
                level: Seq::empty(),
                reached_last_season: unranked_text(),
                finished_last_season: unranked_text(),
            }),
    {
        RankInfo {
            tier: "Unranked".to_owned(),
            division: String::new(),
            lp: String::new(),
            level: String::new(),
            reached_last_season: "Unranked".to_owned(),
            finished_last_season: "Unranked".to_owned(),
        }
    }

    /// The rank reported when a lookup failed.
    pub fn error() -> (r: Self)
        ensures
            r@ == (RankModel {
                tier: error_text(),
                division: Seq::empty(),
                lp: Seq::empty(),
                level: Seq::empty(),
                reached_last_season: pending_text(),
                finished_last_season: pending_text(),
            }),
    {
        RankInfo {
            tier: "Error".to_owned(),
            division: String::new(),
            lp: String::new(),
            level: String::new(),
            reached_last_season: "...".to_owned(),
            finished_last_season: "...".to_owned(),
        }
    }

    /// Writes this rank into `account`.
    pub fn apply_to(&self, account: &mut Account)
        ensures
            final(account)@ == applied(self@, old(account)@),
    {
        account.tier = or_default_string(&self.tier, "Unranked");
        account.division = self.division.clone();
        account.lp = self.lp.clone();
        account.level = self.level.clone();
        account.reached_last_season = or_default_string(&self.reached_last_season, "N/A");
        account.finished_last_season = or_default_string(&self.finished_last_season, "N/A");
    }

    pub fn duplicate(&self) -> (r: RankInfo)
        ensures
            r == *self,
            r@ == self@,
    {
        RankInfo {
            tier: copy_string(&self.tier),
            division: copy_string(&self.division),
            lp: copy_string(&self.lp),
            level: copy_string(&self.level),
            reached_last_season: copy_string(&self.reached_last_season),
            finished_last_season: copy_string(&self.finished_last_season),
        }
    }
}

/// Applying a fetched rank takes the fetched division, league points and
/// level as they are, whatever the account held before; the tier and the two
/// season results too where the rank has them, with `Unranked` and `N/A`
/// standing in for missing ones; the account's own fields stay as they were.
pub proof fn lemma_applied_rank_replaces_rank_fields(info: RankModel, a: AccountModel)
    ensures
        applied(info, a).division == info.division,
        applied(info, a).lp == info.lp,
        applied(info, a).level == info.level,
        info.tier.len() > 0 ==> applied(info, a).tier == info.tier,
        info.tier.len() == 0 ==> applied(info, a).tier == "Unranked"@,
        info.reached_last_season.len() > 0 ==> applied(info, a).reached_last_season == info.reached_last_season,
        info.reached_last_season.len() == 0 ==> applied(info, a).reached_last_season == "N/A"@,
        info.finished_last_season.len() > 0 ==> applied(info, a).finished_last_season == info.finished_last_season,
        info.finished_last_season.len() == 0 ==> applied(info, a).finished_last_season == "N/A"@,
        applied(info, a).account_id == a.account_id,
        applied(info, a).name == a.name,
        applied(info, a).region == a.region,
        applied(info, a).region_display == a.region_display,
        applied(info, a).password == a.password,
        applied(info, a).description == a.description,
{
}

} // verus!
