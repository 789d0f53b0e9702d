//! The list of accounts and the operations on it. Reading and writing the
//! accounts file, the credential store and the network are the application's
//! part; this module decides what the list becomes.

use vstd::prelude::*;
use std::sync::Arc;
use crate::models::{
    Account, AccountKey, AccountModel, RankInfo, RankModel, applied, models, or_default,
    unranked_text, no_history_text,
};
use crate::text::{eq_ignore_case, same_ignoring_case, trim, trim_str};
use crate::utils::{is_rank_ordering, region_display, region_label, sort_accounts};
use crate::rank_fetcher::RankProvider;

verus! {

#[verifier::external_type_specification]
#[verifier::external_body]
pub struct ExPathBuf(std::path::PathBuf);

/// The service under which the application files passwords.
pub const KEYRING_SERVICE: &'static str = crate::credentials::SERVICE;

/// The position of the first account from index `i` on that `key` names.
pub open spec fn key_position_from(s: Seq<AccountModel>, key: (Seq<char>, Seq<char>), i: int) -> Option<int>
    decreases s.len() - i,
{
    if i < 0 || i >= s.len() {
        None
    } else if (s[i].account_id, s[i].region) == key {
        Some(i)
    } else {
        key_position_from(s, key, i + 1)
    }
}

/// The position of the first account that `key` names.
pub open spec fn key_position(s: Seq<AccountModel>, key: (Seq<char>, Seq<char>)) -> Option<int> {
    key_position_from(s, key, 0)
}

/// An account as an import file gives it; every field may be missing (empty).
#[derive(Clone, Debug, Default, PartialEq, Eq)]
pub struct ImportAccount {
    pub account_id: String,
    pub name: String,
    pub region: String,
    pub region_display: String,
    pub password: String,
    pub description: String,
    pub tier: String,
    pub division: String,
    pub lp: String,
    pub level: String,
    pub reached_last_season: String,
    pub finished_last_season: String,
}

impl View for ImportAccount {
    type V = AccountModel;

    open spec fn view(&self) -> AccountModel {
        AccountModel {
            account_id: self.account_id@,
            name: self.name@,
            region: self.region@,
            region_display: self.region_display@,
            password: self.password@,
            description: self.description@,
            tier: self.tier@,
            division: self.division@,
            lp: self.lp@,
            level: self.level@,
            reached_last_season: self.reached_last_season@,
            finished_last_season: self.finished_last_season@,
        }
    }
}

/// What an import did: how many entries it added and skipped, and the accounts
/// it added, in the order of the import.
#[derive(Debug)]
pub struct ImportSummary {
    pub added: usize,
    pub skipped: usize,
    pub imported: Vec<Account>,
}

/// The account that an import entry becomes, with its ID and region trimmed:
/// a missing region label is derived from the region, a missing tier reads
/// `Unranked` and missing season history reads `N/A`.
pub open spec fn imported_account(item: AccountModel, id: Seq<char>, region: Seq<char>) -> AccountModel {
    AccountModel {
        account_id: id,
        region,
        region_display: or_default(item.region_display, region_label(region)),
        tier: or_default(item.tier, unranked_text()),
        reached_last_season: or_default(item.reached_last_season, no_history_text()),
        finished_last_season: or_default(item.finished_last_season, no_history_text()),
        ..item
    }
}

/// Whether `accounts` holds an account with the ID `id` up to ASCII case in the region `region`.
pub open spec fn holds_account(accounts: Seq<AccountModel>, id: Seq<char>, region: Seq<char>) -> bool {
    exists|j: int|
        0 <= j < accounts.len() && same_ignoring_case(#[trigger] accounts[j].account_id, id)
            && accounts[j].region == region
}

/// One import entry: skipped where its trimmed ID or region is empty or the
/// account is already held, added otherwise.
pub open spec fn import_step(state: (Seq<AccountModel>, nat, nat), item: AccountModel) -> (
    Seq<AccountModel>,
    nat,
    nat,
) {
    let id = trim(item.account_id);
    let region = trim(item.region);
    if id.len() == 0 || region.len() == 0 || holds_account(state.0, id, region) {
        (state.0, state.1, state.2 + 1)
    } else {
        (state.0.push(imported_account(item, id, region)), state.1 + 1, state.2)
    }
}

/// The accounts after importing `items` in order into `accounts`, with the
/// numbers of entries added and skipped.
pub open spec fn import_all(accounts: Seq<AccountModel>, items: Seq<AccountModel>) -> (
    Seq<AccountModel>,
    nat,
    nat,
)
    decreases items.len(),
{
    if items.len() == 0 {
        (accounts, 0, 0)
    } else {
        import_step(import_all(accounts, items.drop_last()), items.last())
    }
}

/// The accounts after applying each `(index, rank)` result in order; an index
/// beyond the list changes nothing.
pub open spec fn with_results(s: Seq<AccountModel>, results: Seq<(usize, RankModel)>) -> Seq<AccountModel>
    decreases results.len(),
{
    if results.len() == 0 {
        s
    } else {
        let prev = with_results(s, results.drop_last());
        let (i, info) = results.last();
        if i < prev.len() {
            prev.update(i as int, applied(info, prev[i as int]))
        } else {
            prev
        }
    }
}

/// The accounts of `s` other than those with the ID `id` in the region `region`.
pub open spec fn without_account(s: Seq<AccountModel>, id: Seq<char>, region: Seq<char>) -> Seq<AccountModel>
    decreases s.len(),
{
    if s.len() == 0 {
        s
    } else if s.last().account_id == id && s.last().region == region {
        without_account(s.drop_last(), id, region)
    } else {
        without_account(s.drop_last(), id, region).push(s.last())
    }
}

/// Loaded accounts made ready: a missing region label derived from the region,
/// and each password the one stored for it.
pub open spec fn prepared(loaded: Seq<AccountModel>, passwords: Seq<Seq<char>>) -> Seq<AccountModel> {
    Seq::new(
        loaded.len(),
        |i: int|
            AccountModel {
                region_display: or_default(loaded[i].region_display, region_label(loaded[i].region)),
                password: passwords[i],
                ..loaded[i]
            },
    )
}

/// Accounts with every empty password filled in from the one stored for it.
pub open spec fn with_stored_passwords(s: Seq<AccountModel>, stored: Seq<Seq<char>>) -> Seq<AccountModel> {
    Seq::new(
        s.len(),
        |i: int|
            if s[i].password.len() == 0 {
                AccountModel { password: stored[i], ..s[i] }
            } else {
                s[i]
            },
    )
}

pub open spec fn string_views(v: Seq<String>) -> Seq<Seq<char>> {
    v.map_values(|s: String| s@)
}

pub open spec fn result_models(v: Seq<(usize, RankInfo)>) -> Seq<(usize, RankModel)> {
    v.map_values(|p: (usize, RankInfo)| (p.0, p.1@))
}

pub open spec fn import_models(v: Seq<ImportAccount>) -> Seq<AccountModel> {
    v.map_values(|a: ImportAccount| a@)
}

/// Whether `accounts` holds an account with the ID `id` (up to ASCII case) in
/// the region `region`.
pub fn has_account(accounts: &Vec<Account>, id: &str, region: &str) -> (b: bool)
    ensures
        b == holds_account(models(accounts@), id@, region@),
{
    let n = accounts.len();
    let mut i: usize = 0;
    while i < n
        invariant
            n == accounts@.len(),
            i <= n,
            forall|j: int| 0 <= j < i ==> !(same_ignoring_case(#[trigger] models(accounts@)[j].account_id, id@) && models(accounts@)[j].region == region@),
        decreases n - i,
    {
        let a = &accounts[i];
        assert(models(accounts@)[i as int] == a@);
        if eq_ignore_case(a.account_id.as_str(), id) && crate::text::str_equal(a.region.as_str(), region) {
            assert(same_ignoring_case(models(accounts@)[i as int].account_id, id@));
            return true;
        }
        i = i + 1;
    }
    false
}

pub struct AccountManager<P: ?Sized = dyn RankProvider> {
    pub accounts: Vec<Account>,
    pub accounts_file: std::path::PathBuf,
    pub rank_fetcher: Arc<P>,
}

/// A field that can be edited in place in the table.
#[derive(Clone, Copy, Debug, PartialEq, Eq, Structural)]
pub enum EditField {
    Name,
    Description,
}

/// `a` with `field` set to `value`.
pub open spec fn edited(a: AccountModel, field: EditField, value: Seq<char>) -> AccountModel {
    match field {
        EditField::Name => AccountModel { name: value, ..a },
        EditField::Description => AccountModel { description: value, ..a },
    }
}

/// What the accounts file holds of each account: everything but the password.
pub open spec fn without_passwords(s: Seq<AccountModel>) -> Seq<AccountModel> {
    Seq::new(s.len(), |i: int| AccountModel { password: Seq::empty(), ..s[i] })
}

impl<P: ?Sized> AccountManager<P> {
    /// An empty manager for the accounts file that `accounts_file` gives, or
    /// the error of finding that file. The file is not read.
    pub fn new<E>(rank_fetcher: Arc<P>, accounts_file: Result<std::path::PathBuf, E>) -> (r: Result<Self, E>)
        ensures
            match accounts_file {
                Ok(path) => r matches Ok(m) && m.accounts@.len() == 0 && m.accounts_file == path
                    && m.rank_fetcher == rank_fetcher,
                Err(e) => r matches Err(f) && f == e,
            },
    {
        match accounts_file {
            Ok(path) => Ok(AccountManager { accounts: Vec::new(), accounts_file: path, rank_fetcher }),
            Err(e) => Err(e),
        }
    }

    pub fn with_path(path: std::path::PathBuf, rank_fetcher: Arc<P>) -> (r: Self)
        ensures
            r.accounts@ == Seq::<Account>::empty(),
            r.accounts_file == path,
            r.rank_fetcher == rank_fetcher,
    {
        AccountManager { accounts: Vec::new(), accounts_file: path, rank_fetcher }
    }

    fn position(&self, key: &AccountKey) -> (r: Option<usize>)
        ensures
            r matches Some(i) ==> i < self.accounts@.len() && key_position(models(self.accounts@), key@)
                == Some(i as int),
            r is None ==> key_position(models(self.accounts@), key@) is None,
    {
        let n = self.accounts.len();
        let mut i: usize = 0;
        while i < n
            invariant
                n == self.accounts@.len(),
                i <= n,
                key_position(models(self.accounts@), key@) == key_position_from(models(self.accounts@), key@, i as int),
            decreases n - i,
        {
            assert(models(self.accounts@)[i as int] == self.accounts@[i as int]@);
            if self.accounts[i].has_key(key) {
                return Some(i);
            }
            i = i + 1;
        }
        None
    }

    /// The position of the first account that `key` names, or 0 where none does.
    pub fn index_of(&self, key: &AccountKey) -> (r: usize)
        ensures
            r == match key_position(models(self.accounts@), key@) {
                Some(i) => i,
                None => 0,
            },
    {
        match self.position(key) {
            Some(i) => i,
            None => 0,
        }
    }

    /// The first account that `key` names.
    pub fn account(&self, key: &AccountKey) -> (r: Option<&Account>)
        ensures
            match key_position(models(self.accounts@), key@) {
                Some(i) => r == Some(&self.accounts@[i]),
                None => r is None,
            },
    {
        match self.position(key) {
            Some(i) => Some(&self.accounts[i]),
            None => None,
        }
    }

    /// The first account that `key` names, to change in place.
    pub fn account_mut(&mut self, key: &AccountKey) -> (r: Option<&mut Account>)
        ensures
            final(self).accounts_file == old(self).accounts_file,
            final(self).rank_fetcher == old(self).rank_fetcher,
            match key_position(models(old(self).accounts@), key@) {
                Some(i) => r is Some && *r->0 == old(self).accounts@[i]
                    && final(self).accounts@ == old(self).accounts@.update(i, *final(r->0)),
                None => r is None && final(self).accounts@ == old(self).accounts@,
            },
    {
        match self.position(key) {
            Some(i) => Some(&mut self.accounts[i]),
            None => None,
        }
    }
}


impl<P: ?Sized> AccountManager<P> {
    /// Adds an account and restores the rank order.
    pub fn add_account(&mut self, account: Account)
        ensures
            final(self).accounts_file == old(self).accounts_file,
            final(self).rank_fetcher == old(self).rank_fetcher,
            is_rank_ordering(models(final(self).accounts@), models(old(self).accounts@).push(account@)),
    {
        let ghost a = account@;
        self.accounts.push(account);
        assert(models(self.accounts@) =~= models(old(self).accounts@).push(a));
        sort_accounts(&mut self.accounts);
    }

    /// Removes every account with the ID `account_id` in the region `region`.
    pub fn delete_account(&mut self, account_id: &str, region: &str)
        ensures
            final(self).accounts_file == old(self).accounts_file,
            final(self).rank_fetcher == old(self).rank_fetcher,
            models(final(self).accounts@) == without_account(models(old(self).accounts@), account_id@, region@),
    {
        let mut kept: Vec<Account> = Vec::new();
        let n = self.accounts.len();
        let mut i: usize = 0;
        while i < n
            invariant
                n == self.accounts@.len(),
                i <= n,
                self.accounts@ == old(self).accounts@,
                models(kept@) == without_account(models(self.accounts@).take(i as int), account_id@, region@),
            decreases n - i,
        {
            let a = &self.accounts[i];
            let ghost prefix = models(self.accounts@).take((i + 1) as int);
            assert(prefix.drop_last() =~= models(self.accounts@).take(i as int));
            assert(prefix.last() == a@);
            if !(crate::text::str_equal(a.account_id.as_str(), account_id) && crate::text::str_equal(a.region.as_str(), region)) {
                let ghost before = kept@;
                kept.push(a.duplicate());
                assert(models(kept@) =~= models(before).push(a@));
            }
            i = i + 1;
        }
        assert(models(self.accounts@).take(n as int) =~= models(self.accounts@));
        self.accounts = kept;
    }

    /// Sets a field of the first account that `key` names; false where none does.
    pub fn edit_account(&mut self, key: &AccountKey, field: EditField, value: String) -> (found: bool)
        ensures
            final(self).accounts_file == old(self).accounts_file,
            final(self).rank_fetcher == old(self).rank_fetcher,
            found == (key_position(models(old(self).accounts@), key@) is Some),
            models(final(self).accounts@) == match key_position(models(old(self).accounts@), key@) {
                Some(i) => models(old(self).accounts@).update(i, edited(old(self).accounts@[i]@, field, value@)),
                None => models(old(self).accounts@),
            },
    {
        match self.position(key) {
            Some(i) => {
                let mut a = self.accounts[i].duplicate();
                match field {
                    EditField::Name => {
                        a.name = value;
                    },
                    EditField::Description => {
                        a.description = value;
                    },
                }
                self.accounts.set(i, a);
                assert(models(self.accounts@) =~= models(old(self).accounts@).update(i as int, edited(old(self).accounts@[i as int]@, field, value@)));
                true
            },
            None => false,
        }
    }

    /// The accounts as the accounts file keeps them: without their passwords,
    /// which only the credential store holds.
    pub fn accounts_for_file(&self) -> (r: Vec<Account>)
        ensures
            models(r@) == without_passwords(models(self.accounts@)),
            forall|i: int| 0 <= i < r@.len() ==> (#[trigger] r@[i]).password@.len() == 0,
    {
        let mut out: Vec<Account> = Vec::new();
        let n = self.accounts.len();
        let mut i: usize = 0;
        while i < n
            invariant
                n == self.accounts@.len(),
                i <= n,
                out@.len() == i,
                forall|j: int| 0 <= j < i ==> (#[trigger] out@[j])@ == without_passwords(models(self.accounts@))[j],
            decreases n - i,
        {
            let mut a = self.accounts[i].duplicate();
            a.password = String::new();
            assert(models(self.accounts@)[i as int] == self.accounts@[i as int]@);
            out.push(a);
            i = i + 1;
        }
        assert(models(out@) =~= without_passwords(models(self.accounts@)));
        proof {
            assert forall|i: int| 0 <= i < out@.len() implies (#[trigger] out@[i]).password@.len() == 0 by {
                assert(out@[i]@ == without_passwords(models(self.accounts@))[i]);
            }
        }
        out
    }

    /// Writes `info` into the first account that `key` names, if any.
    pub fn apply_rank_info(&mut self, key: &AccountKey, info: &RankInfo)
        ensures
            final(self).accounts_file == old(self).accounts_file,
            final(self).rank_fetcher == old(self).rank_fetcher,
            models(final(self).accounts@) == match key_position(models(old(self).accounts@), key@) {
                Some(i) => models(old(self).accounts@).update(i, applied(info@, old(self).accounts@[i]@)),
                None => models(old(self).accounts@),
            },
    {
        if let Some(i) = self.position(key) {
            info.apply_to(&mut self.accounts[i]);
            assert(models(self.accounts@) =~= models(old(self).accounts@).update(i as int, applied(info@, old(self).accounts@[i as int]@)));
        }
    }

    /// The rank lookups to make: every account with its position.
    pub fn rank_jobs(&self) -> (r: Vec<(usize, Account)>)
        ensures
            r@.len() == self.accounts@.len(),
            forall|i: int| 0 <= i < r@.len() ==> (#[trigger] r@[i]).0 == i && r@[i].1 == self.accounts@[i],
    {
        let mut jobs: Vec<(usize, Account)> = Vec::new();
        let n = self.accounts.len();
        let mut i: usize = 0;
        while i < n
            invariant
                n == self.accounts@.len(),
                i <= n,
                jobs@.len() == i,
                forall|j: int| 0 <= j < i ==> (#[trigger] jobs@[j]).0 == j && jobs@[j].1 == self.accounts@[j],
            decreases n - i,
        {
            jobs.push((i, self.accounts[i].duplicate()));
            i = i + 1;
        }
        jobs
    }

    /// Applies the looked-up ranks, each `(position, rank)` in order, and
    /// restores the rank order.
    pub fn refresh_ranks(&mut self, results: Vec<(usize, RankInfo)>)
        ensures
            final(self).accounts_file == old(self).accounts_file,
            final(self).rank_fetcher == old(self).rank_fetcher,
            is_rank_ordering(
                models(final(self).accounts@),
                with_results(models(old(self).accounts@), result_models(results@)),
            ),
    {
        let n = results.len();
        let mut i: usize = 0;
        while i < n
            invariant
                n == results@.len(),
                i <= n,
                models(self.accounts@) == with_results(models(old(self).accounts@), result_models(results@).take(i as int)),
                self.accounts_file == old(self).accounts_file,
                self.rank_fetcher == old(self).rank_fetcher,
            decreases n - i,
        {
            let (index, info) = &results[i];
            let ghost rs = result_models(results@).take((i + 1) as int);
            assert(rs.drop_last() =~= result_models(results@).take(i as int));
            assert(rs.last() == (*index, info@));
            if *index < self.accounts.len() {
                let ghost before = self.accounts@;
                info.apply_to(&mut self.accounts[*index]);
                assert(models(self.accounts@) =~= models(before).update(*index as int, applied(info@, before[*index as int]@)));
            }
            i = i + 1;
        }
        assert(result_models(results@).take(n as int) =~= result_models(results@));
        sort_accounts(&mut self.accounts);
    }

    /// Takes in the accounts read from the accounts file, with the password
    /// stored for each, and puts them in rank order.
    pub fn load_accounts(&mut self, loaded: Vec<Account>, stored_passwords: Vec<String>)
        requires
            loaded@.len() == stored_passwords@.len(),
        ensures
            final(self).accounts_file == old(self).accounts_file,
            final(self).rank_fetcher == old(self).rank_fetcher,
            is_rank_ordering(
                models(final(self).accounts@),
                prepared(models(loaded@), string_views(stored_passwords@)),
            ),
    {
        let mut ready: Vec<Account> = Vec::new();
        let n = loaded.len();
        let mut i: usize = 0;
        while i < n
            invariant
                n == loaded@.len(),
                n == stored_passwords@.len(),
                i <= n,
                models(ready@) == prepared(models(loaded@), string_views(stored_passwords@)).take(i as int),
            decreases n - i,
        {
            let mut a = loaded[i].duplicate();
            if a.region_display.as_str().is_empty() {
                a.region_display = region_display(a.region.as_str());
            }
            a.password = stored_passwords[i].clone();
            let ghost target = prepared(models(loaded@), string_views(stored_passwords@));
            assert(models(loaded@)[i as int] == loaded@[i as int]@);
            assert(string_views(stored_passwords@)[i as int] == stored_passwords@[i as int]@);
            assert(a@ == target[i as int]);
            let ghost before = ready@;
            ready.push(a);
            assert(models(ready@) =~= models(before).push(a@));
            assert(target.take((i + 1) as int) =~= target.take(i as int).push(target[i as int]));
            i = i + 1;
        }
        assert(prepared(models(loaded@), string_views(stored_passwords@)).take(n as int) =~= prepared(models(loaded@), string_views(stored_passwords@)));
        sort_accounts(&mut ready);
        self.accounts = ready;
    }

    /// Fills every empty password in from the one stored for the account, and
    /// returns every account, passwords included, for an explicit export.
    pub fn export_accounts(&mut self, stored_passwords: Vec<String>) -> (r: Vec<Account>)
        requires
            stored_passwords@.len() == old(self).accounts@.len(),
        ensures
            final(self).accounts_file == old(self).accounts_file,
            final(self).rank_fetcher == old(self).rank_fetcher,
            models(final(self).accounts@) == with_stored_passwords(models(old(self).accounts@), string_views(stored_passwords@)),
            models(r@) == models(final(self).accounts@),
    {
        let n = self.accounts.len();
        let ghost target = with_stored_passwords(models(old(self).accounts@), string_views(stored_passwords@));
        let mut export: Vec<Account> = Vec::new();
        let mut i: usize = 0;
        while i < n
            invariant
                n == self.accounts@.len(),
                n == stored_passwords@.len(),
                n == old(self).accounts@.len(),
                target == with_stored_passwords(models(old(self).accounts@), string_views(stored_passwords@)),
                self.accounts_file == old(self).accounts_file,
                self.rank_fetcher == old(self).rank_fetcher,
                i <= n,
                export@.len() == i,
                forall|j: int| i <= j < n ==> self.accounts@[j] == old(self).accounts@[j],
                forall|j: int| 0 <= j < i ==> (#[trigger] self.accounts@[j])@ == target[j],
                forall|j: int| 0 <= j < i ==> (#[trigger] export@[j])@ == target[j],
            decreases n - i,
        {
            assert(models(old(self).accounts@)[i as int] == old(self).accounts@[i as int]@);
            assert(string_views(stored_passwords@)[i as int] == stored_passwords@[i as int]@);
            let ghost prev = self.accounts@;
            if self.accounts[i].password.as_str().is_empty() {
                let mut a = self.accounts[i].duplicate();
                a.password = stored_passwords[i].clone();
                self.accounts.set(i, a);
            }
            assert(self.accounts@[i as int]@ == target[i as int]);
            assert forall|j: int| 0 <= j < i implies (#[trigger] self.accounts@[j])@ == target[j] by {
                assert(self.accounts@[j] == prev[j]);
            }
            export.push(self.accounts[i].duplicate());
            i = i + 1;
        }
        assert(models(self.accounts@) =~= target);
        assert(models(export@) =~= target);
        export
    }

    /// Imports accounts, skipping entries without an ID or region (after
    /// trimming) and accounts already held (same ID up to ASCII case, same
    /// region), then restores the rank order.
    pub fn import_accounts(&mut self, data: Vec<ImportAccount>) -> (r: ImportSummary)
        ensures
            final(self).accounts_file == old(self).accounts_file,
            final(self).rank_fetcher == old(self).rank_fetcher,
            ({
                let after = import_all(models(old(self).accounts@), import_models(data@));
                &&& r.added == after.1
                &&& r.skipped == after.2
                &&& r.added + r.skipped == data@.len()
                &&& models(r.imported@) == after.0.skip(old(self).accounts@.len() as int)
                &&& is_rank_ordering(models(final(self).accounts@), after.0)
            }),
    {
        let n = data.len();
        let start = self.accounts.len();
        let mut added: usize = 0;
        let mut skipped: usize = 0;
        let mut imported: Vec<Account> = Vec::new();
        let mut i: usize = 0;
        while i < n
            invariant
                n == data@.len(),
                i <= n,
                start == old(self).accounts@.len(),
                self.accounts_file == old(self).accounts_file,
                self.rank_fetcher == old(self).rank_fetcher,
                start <= self.accounts@.len(),
                added + skipped == i,
                (models(self.accounts@), added as nat, skipped as nat) == import_all(models(old(self).accounts@), import_models(data@).take(i as int)),
                models(imported@) == models(self.accounts@).skip(start as int),
            decreases n - i,
        {
            let item = &data[i];
            let ghost items = import_models(data@).take((i + 1) as int);
            assert(items.drop_last() =~= import_models(data@).take(i as int));
            assert(items.last() == item@);
            let id = trim_str(item.account_id.as_str());
            let region = trim_str(item.region.as_str());
            if id.as_str().is_empty() || region.as_str().is_empty() || has_account(&self.accounts, id.as_str(), region.as_str()) {
                skipped = skipped + 1;
            } else {
                let account = Account {
                    account_id: id.clone(),
                    name: item.name.clone(),
                    region: region.clone(),
                    region_display: if item.region_display.as_str().is_empty() {
                        region_display(region.as_str())
                    } else {
                        item.region_display.clone()
                    },
                    password: item.password.clone(),
                    description: item.description.clone(),
                    tier: if item.tier.as_str().is_empty() {
                        "Unranked".to_owned()
                    } else {
                        item.tier.clone()
                    },
                    division: item.division.clone(),
                    lp: item.lp.clone(),
                    level: item.level.clone(),
                    reached_last_season: if item.reached_last_season.as_str().is_empty() {
                        "N/A".to_owned()
                    } else {
                        item.reached_last_season.clone()
                    },
                    finished_last_season: if item.finished_last_season.as_str().is_empty() {
                        "N/A".to_owned()
                    } else {
                        item.finished_last_season.clone()
                    },
                };
                assert(account@ == imported_account(item@, id@, region@));
                let ghost before = self.accounts@;
                let ghost before_imported = imported@;
                imported.push(account.duplicate());
                self.accounts.push(account);
                assert(models(self.accounts@) =~= models(before).push(account@));
                assert(models(imported@) =~= models(before_imported).push(account@));
                assert(models(before).push(account@).skip(start as int) =~= models(before).skip(start as int).push(account@));
                added = added + 1;
            }
            i = i + 1;
        }
        assert(import_models(data@).take(n as int) =~= import_models(data@));
        let ghost after = models(self.accounts@);
        sort_accounts(&mut self.accounts);
        ImportSummary { added, skipped, imported }
    }
}


proof fn lemma_without_account_members(s: Seq<AccountModel>, id: Seq<char>, region: Seq<char>)
    ensures
        forall|a: AccountModel| #[trigger] without_account(s, id, region).contains(a) <==> (s.contains(a)
            && !(a.account_id == id && a.region == region)),
    decreases s.len(),
{
    if s.len() > 0 {
        let rest = s.drop_last();
        let last = s.last();
        let wr = without_account(rest, id, region);
        let ws = without_account(s, id, region);
        lemma_without_account_members(rest, id, region);
        assert forall|a: AccountModel| #[trigger] ws.contains(a) <==> (s.contains(a) && !(a.account_id == id
            && a.region == region)) by {
            if ws.contains(a) {
                let j = choose|j: int| 0 <= j < ws.len() && ws[j] == a;
                if j < wr.len() {
                    assert(wr[j] == a);
                    assert(wr.contains(a));
                    let i = choose|i: int| 0 <= i < rest.len() && rest[i] == a;
                    assert(s[i] == a);
                } else {
                    assert(a == last);
                    assert(s[s.len() - 1] == a);
                }
            }
            if s.contains(a) && !(a.account_id == id && a.region == region) {
                let i = choose|i: int| 0 <= i < s.len() && s[i] == a;
                if i < s.len() - 1 {
                    assert(rest[i] == a);
                    assert(rest.contains(a));
                    assert(wr.contains(a));
                    let j = choose|j: int| 0 <= j < wr.len() && wr[j] == a;
                    if !(last.account_id == id && last.region == region) {
                        assert(wr.push(last)[j] == a);
                    }
                } else {
                    assert(a == last);
                    assert(wr.push(last)[wr.len() as int] == a);
                }
            }
        }
    }
}

proof fn lemma_key_position_none(s: Seq<AccountModel>, key: (Seq<char>, Seq<char>), i: int)
    requires
        0 <= i,
        forall|j: int| i <= j < s.len() ==> (#[trigger] s[j].account_id, s[j].region) != key,
    ensures
        key_position_from(s, key, i) is None,
    decreases s.len() - i,
{
    if i < s.len() {
        lemma_key_position_none(s, key, i + 1);
    }
}

/// After a delete no account with that ID and region is left, every other
/// account is kept, and nothing else comes in.
pub proof fn lemma_delete_removes_only_that_account(s: Seq<AccountModel>, id: Seq<char>, region: Seq<char>)
    ensures
        key_position(without_account(s, id, region), (id, region)) is None,
        forall|a: AccountModel| #[trigger] without_account(s, id, region).contains(a) <==> (s.contains(a)
            && !(a.account_id == id && a.region == region)),
{
    lemma_without_account_members(s, id, region);
    let w = without_account(s, id, region);
    assert forall|j: int| 0 <= j < w.len() implies (#[trigger] w[j].account_id, w[j].region) != (id, region) by {
        assert(w.contains(w[j]));
    }
    lemma_key_position_none(w, (id, region), 0);
}

/// An added account is in the list afterwards, every account that was there
/// stays, and the list grows by one.
pub proof fn lemma_added_account_is_listed(out: Seq<AccountModel>, before: Seq<AccountModel>, a: AccountModel)
    requires
        is_rank_ordering(out, before.push(a)),
    ensures
        out.contains(a),
        forall|x: AccountModel| #[trigger] before.contains(x) ==> out.contains(x),
        out.len() == before.len() + 1,
{
    broadcast use vstd::seq_lib::group_to_multiset_ensures;

    crate::utils::lemma_rank_ordering_is_permutation(out, before.push(a));
    assert(before.push(a)[before.len() as int] == a);
    assert(out.to_multiset().count(a) > 0);
    assert forall|x: AccountModel| #[trigger] before.contains(x) implies out.contains(x) by {
        let j = choose|j: int| 0 <= j < before.len() && before[j] == x;
        assert(before.push(a)[j] == x);
        assert(out.to_multiset().count(x) > 0);
    }
}

proof fn lemma_holds_grows(s: Seq<AccountModel>, t: Seq<AccountModel>, id: Seq<char>, region: Seq<char>)
    requires
        s.len() <= t.len(),
        t.take(s.len() as int) == s,
        holds_account(s, id, region),
    ensures
        holds_account(t, id, region),
{
    let j = choose|j: int| 0 <= j < s.len() && same_ignoring_case(#[trigger] s[j].account_id, id) && s[j].region == region;
    assert(t.take(s.len() as int)[j] == t[j]);
    assert(same_ignoring_case(t[j].account_id, id));
}

proof fn lemma_import_extends(accounts: Seq<AccountModel>, items: Seq<AccountModel>)
    ensures
        accounts.len() <= import_all(accounts, items).0.len(),
        import_all(accounts, items).0.take(accounts.len() as int) == accounts,
    decreases items.len(),
{
    if items.len() > 0 {
        lemma_import_extends(accounts, items.drop_last());
        let prev = import_all(accounts, items.drop_last()).0;
        let next = import_all(accounts, items).0;
        if next != prev {
            assert(next.take(accounts.len() as int) =~= prev.take(accounts.len() as int));
        }
    }
}

/// An entry with an ID and a region.
pub open spec fn importable(item: AccountModel) -> bool {
    trim(item.account_id).len() > 0 && trim(item.region).len() > 0
}

proof fn lemma_import_holds_every_entry(accounts: Seq<AccountModel>, items: Seq<AccountModel>)
    ensures
        forall|k: int| 0 <= k < items.len() && importable(#[trigger] items[k]) ==> holds_account(
            import_all(accounts, items).0,
            trim(items[k].account_id),
            trim(items[k].region),
        ),
    decreases items.len(),
{
    if items.len() > 0 {
        let rest = items.drop_last();
        let item = items.last();
        lemma_import_holds_every_entry(accounts, rest);
        let prev = import_all(accounts, rest).0;
        let next = import_all(accounts, items).0;
        assert(next.len() >= prev.len() && next.take(prev.len() as int) =~= prev);
        assert forall|k: int| 0 <= k < items.len() && importable(#[trigger] items[k]) implies holds_account(
            next,
            trim(items[k].account_id),
            trim(items[k].region),
        ) by {
            if k < items.len() - 1 {
                assert(rest[k] == items[k]);
                lemma_holds_grows(prev, next, trim(items[k].account_id), trim(items[k].region));
            } else {
                let id = trim(item.account_id);
                let region = trim(item.region);
                if !holds_account(prev, id, region) {
                    let j = prev.len() as int;
                    assert(next[j] == imported_account(item, id, region));
                    assert(same_ignoring_case(next[j].account_id, id));
                }
            }
        }
    }
}

proof fn lemma_import_of_held_entries(held: Seq<AccountModel>, items: Seq<AccountModel>)
    requires
        forall|k: int| 0 <= k < items.len() && importable(#[trigger] items[k]) ==> holds_account(
            held,
            trim(items[k].account_id),
            trim(items[k].region),
        ),
    ensures
        import_all(held, items) == (held, 0nat, items.len()),
    decreases items.len(),
{
    if items.len() > 0 {
        let rest = items.drop_last();
        assert forall|k: int| 0 <= k < rest.len() && importable(#[trigger] rest[k]) implies holds_account(
            held,
            trim(rest[k].account_id),
            trim(rest[k].region),
        ) by {
            assert(rest[k] == items[k]);
        }
        lemma_import_of_held_entries(held, rest);
        assert(items[items.len() - 1] == items.last());
    }
}

/// Importing the same entries a second time adds nothing: every entry is
/// skipped, and the list stays as the first import left it.
pub proof fn lemma_reimport_adds_nothing(accounts: Seq<AccountModel>, items: Seq<AccountModel>)
    ensures
        import_all(import_all(accounts, items).0, items) == (import_all(accounts, items).0, 0nat, items.len()),
{
    lemma_import_holds_every_entry(accounts, items);
    lemma_import_of_held_entries(import_all(accounts, items).0, items);
}


/// Whether an account survives an export and an import unchanged: its ID and
/// region are trimmed and present, and its region label, tier and season
/// history are filled in.
pub open spec fn transferable(a: AccountModel) -> bool {
    &&& trim(a.account_id) == a.account_id && a.account_id.len() > 0
    &&& trim(a.region) == a.region && a.region.len() > 0
    &&& a.region_display.len() > 0 && a.tier.len() > 0
    &&& a.reached_last_season.len() > 0 && a.finished_last_season.len() > 0
}

/// Moving the accounts to another install: importing the exported accounts
/// into an empty list adds every one of them, unchanged and in order, when
/// each is transferable and no two share an ID (up to ASCII case) and region.
pub proof fn lemma_export_import_round_trip(accounts: Seq<AccountModel>)
    requires
        forall|i: int| 0 <= i < accounts.len() ==> transferable(#[trigger] accounts[i]),
        forall|i: int, j: int|
            0 <= i < j < accounts.len() ==> !(same_ignoring_case(#[trigger] accounts[i].account_id, #[trigger] accounts[j].account_id)
                && accounts[i].region == accounts[j].region),
    ensures
        import_all(Seq::empty(), accounts) == (accounts, accounts.len(), 0nat),
    decreases accounts.len(),
{
    if accounts.len() > 0 {
        let rest = accounts.drop_last();
        let last = accounts.last();
        assert forall|i: int, j: int| 0 <= i < j < rest.len() implies !(same_ignoring_case(
            #[trigger] rest[i].account_id,
            #[trigger] rest[j].account_id,
        ) && rest[i].region == rest[j].region) by {
            assert(rest[i] == accounts[i] && rest[j] == accounts[j]);
        }
        assert forall|i: int| 0 <= i < rest.len() implies transferable(#[trigger] rest[i]) by {
            assert(rest[i] == accounts[i]);
        }
        lemma_export_import_round_trip(rest);
        assert(transferable(accounts[accounts.len() - 1]));
        if holds_account(rest, last.account_id, last.region) {
            let j = choose|j: int| 0 <= j < rest.len() && same_ignoring_case(#[trigger] rest[j].account_id, last.account_id)
                && rest[j].region == last.region;
            assert(rest[j] == accounts[j]);
            assert(same_ignoring_case(accounts[j].account_id, accounts[accounts.len() - 1].account_id));
        }
        assert(imported_account(last, last.account_id, last.region) == last);
        assert(rest.push(last) =~= accounts);
    }
}


proof fn lemma_key_position_from(s: Seq<AccountModel>, key: (Seq<char>, Seq<char>), k: int)
    requires
        0 <= k,
    ensures
        key_position_from(s, key, k) matches Some(i) ==> k <= i < s.len() && (s[i].account_id, s[i].region) == key
            && forall|j: int| k <= j < i ==> (#[trigger] s[j].account_id, s[j].region) != key,
        key_position_from(s, key, k) is None ==> forall|j: int| k <= j < s.len() ==> (#[trigger] s[j].account_id, s[j].region) != key,
    decreases s.len() - k,
{
    if k < s.len() {
        lemma_key_position_from(s, key, k + 1);
    }
}

/// The account that a key names is the first one with that ID and region;
/// a key names none where no account has them.
pub proof fn lemma_key_names_first_match(s: Seq<AccountModel>, key: (Seq<char>, Seq<char>))
    ensures
        key_position(s, key) matches Some(i) ==> 0 <= i < s.len() && (s[i].account_id, s[i].region) == key
            && forall|j: int| 0 <= j < i ==> (#[trigger] s[j].account_id, s[j].region) != key,
        key_position(s, key) is None ==> forall|j: int| 0 <= j < s.len() ==> (#[trigger] s[j].account_id, s[j].region) != key,
{
    lemma_key_position_from(s, key, 0);
}

/// The last rank in `results` for position `i`, if any.
pub open spec fn last_rank_for(results: Seq<(usize, RankModel)>, i: int) -> Option<RankModel>
    decreases results.len(),
{
    if results.len() == 0 {
        None
    } else if results.last().0 == i {
        Some(results.last().1)
    } else {
        last_rank_for(results.drop_last(), i)
    }
}

/// Applying the looked-up ranks in turn keeps the list's length; every
/// account ends up with the last rank looked up for its position applied to
/// it, over whatever it had, and an account with no rank looked up stays as
/// it was.
pub proof fn lemma_refresh_applies_last_rank(s: Seq<AccountModel>, results: Seq<(usize, RankModel)>, i: int)
    requires
        0 <= i < s.len(),
    ensures
        with_results(s, results).len() == s.len(),
        match last_rank_for(results, i) {
            Some(info) => with_results(s, results)[i] == applied(info, s[i]),
            None => with_results(s, results)[i] == s[i],
        },
    decreases results.len(),
{
    if results.len() > 0 {
        lemma_refresh_applies_last_rank(s, results.drop_last(), i);
    }
}

} // verus!
