//! The decisions of the desktop front end: which accounts the table shows,
//! what the add forms accept, what Ctrl+C copies, where the selection goes
//! after a delete and when a rank refresh is complete. The front end draws
//! the window and talks to the clipboard, the credential store and the files.

use vstd::prelude::*;
use crate::models::{Account, AccountKey, AccountModel, models, no_history_text, unranked_text};
use crate::text::{
    contains, contains_chars, chars_of, eq_ignore_case, lower, lower_chars, same_ignoring_case,
    split, split_chars, str_equal, trim, trim_chars, trim_str, views,
};
use crate::utils::{division_index, division_index_of, region_code, region_from_display, tier_index, tier_index_of};
use crate::account_manager::{has_account, holds_account};

verus! {

// ---------------------------------------------------------------------------
// Friend Elo: which accounts may play with a friend of a given rank
// ---------------------------------------------------------------------------

/// The number of a division, 1 for I (or "1") to 4 for IV (or "4").
pub open spec fn division_number(division: Seq<char>) -> Option<int> {
    if division_index(division) < 4 {
        Some(division_index(division) + 1)
    } else {
        None
    }
}

pub fn division_number_of(division: &str) -> (r: Option<i32>)
    ensures
        match division_number(division@) {
            Some(k) => r == Some(k as i32) && 1 <= k <= 4,
            None => r is None,
        },
{
    let i = division_index_of(division);
    if i < 4 {
        Some((i + 1) as i32)
    } else {
        None
    }
}

/// Whether `tier` names the tier `name` (given in small letters) up to ASCII case.
pub open spec fn tier_is(tier: Seq<char>, name: Seq<char>) -> bool {
    same_ignoring_case(tier, name)
}

/// Whether an account of tier `account_tier` and division `account_division`
/// may play with a friend of tier `friend_tier` and division `friend_division`:
/// - Master: Master, or Diamond I;
/// - Diamond: Diamond within two divisions of the friend's, Emerald I for a
///   Diamond IV friend, Master for a Diamond I friend;
/// - Emerald: Emerald, Platinum, or Diamond IV for an Emerald I friend;
/// - Platinum: Platinum, Emerald or Gold; Iron: Iron, Bronze or Silver;
/// - Gold, Silver, Bronze: the same tier or the one just above or below;
/// - any other friend tier: nothing.
pub open spec fn compatible(
    account_tier: Seq<char>,
    account_division: Seq<char>,
    friend_tier: Seq<char>,
    friend_division: Seq<char>,
) -> bool {
    let ad = division_number(account_division);
    let fd = division_number(friend_division);
    if tier_is(friend_tier, "master"@) {
        tier_is(account_tier, "master"@) || (tier_is(account_tier, "diamond"@) && ad == Some(1int))
    } else if tier_is(friend_tier, "diamond"@) {
        (tier_is(account_tier, "diamond"@) && ad is Some && fd is Some && -2 <= ad->0 - fd->0 <= 2)
            || (tier_is(account_tier, "emerald"@) && ad == Some(1int) && fd == Some(4int))
            || (tier_is(account_tier, "master"@) && fd == Some(1int))
    } else if tier_is(friend_tier, "emerald"@) {
        tier_is(account_tier, "emerald"@) || tier_is(account_tier, "platinum"@) || (fd == Some(1int)
            && tier_is(account_tier, "diamond"@) && ad == Some(4int))
    } else if tier_is(friend_tier, "platinum"@) {
        tier_is(account_tier, "platinum"@) || tier_is(account_tier, "emerald"@) || tier_is(
            account_tier,
            "gold"@,
        )
    } else if tier_is(friend_tier, "iron"@) {
        tier_is(account_tier, "iron"@) || tier_is(account_tier, "bronze"@) || tier_is(
            account_tier,
            "silver"@,
        )
    } else if tier_is(friend_tier, "bronze"@) || tier_is(friend_tier, "silver"@) || tier_is(
        friend_tier,
        "gold"@,
    ) {
        -1 <= tier_index(account_tier) - tier_index(friend_tier) <= 1
    } else {
        false
    }
}

proof fn lemma_tier_literals()
    ensures
        lower("master"@) == "master"@,
        lower("diamond"@) == "diamond"@,
        lower("emerald"@) == "emerald"@,
        lower("platinum"@) == "platinum"@,
        lower("iron"@) == "iron"@,
        lower("bronze"@) == "bronze"@,
        lower("silver"@) == "silver"@,
        lower("gold"@) == "gold"@,
        lower("Platinum"@) == "platinum"@,
        lower("Gold"@) == "gold"@,
        lower("Silver"@) == "silver"@,
        lower("Bronze"@) == "bronze"@,
        lower("Iron"@) == "iron"@,
        forall|a: Seq<char>, b: Seq<char>|
            #![trigger same_ignoring_case(a, b)]
            same_ignoring_case(a, b) <==> lower(a) == lower(b),
{
    reveal_strlit("master");
    reveal_strlit("diamond");
    reveal_strlit("emerald");
    reveal_strlit("platinum");
    reveal_strlit("iron");
    reveal_strlit("bronze");
    reveal_strlit("silver");
    reveal_strlit("gold");
    reveal_strlit("Platinum");
    reveal_strlit("Gold");
    reveal_strlit("Silver");
    reveal_strlit("Bronze");
    reveal_strlit("Iron");
    assert(lower("master"@) =~= "master"@);
    assert(lower("diamond"@) =~= "diamond"@);
    assert(lower("emerald"@) =~= "emerald"@);
    assert(lower("platinum"@) =~= "platinum"@);
    assert(lower("iron"@) =~= "iron"@);
    assert(lower("bronze"@) =~= "bronze"@);
    assert(lower("silver"@) =~= "silver"@);
    assert(lower("gold"@) =~= "gold"@);
    assert(lower("Platinum"@) =~= "platinum"@);
    assert(lower("Gold"@) =~= "gold"@);
    assert(lower("Silver"@) =~= "silver"@);
    assert(lower("Bronze"@) =~= "bronze"@);
    assert(lower("Iron"@) =~= "iron"@);
}

/// The friend Elo table. A friend of tier Master may play with Master
/// accounts and Diamond I; Diamond with Diamond accounts at most two
/// divisions away, Emerald I for a Diamond IV friend, and Master for a
/// Diamond I friend; Emerald with Emerald and Platinum, and Diamond IV for an
/// Emerald I friend; Platinum with Platinum, Emerald and Gold; Gold with
/// Platinum, Gold and Silver; Silver with Gold, Silver and Bronze; Bronze with
/// Silver, Bronze and Iron; Iron with Iron, Bronze and Silver. Tiers are
/// compared up to ASCII case, divisions by number (I or 1 to IV or 4). No
/// other friend tier may play with anyone.
pub proof fn lemma_friend_elo_table(
    account_tier: Seq<char>,
    account_division: Seq<char>,
    friend_tier: Seq<char>,
    friend_division: Seq<char>,
)
    ensures
        lower(friend_tier) == "master"@ ==> (compatible(account_tier, account_division, friend_tier, friend_division) <==> lower(account_tier) == "master"@ || (lower(account_tier) == "diamond"@ && division_index(account_division) == 0)),
        lower(friend_tier) == "diamond"@ ==> (compatible(account_tier, account_division, friend_tier, friend_division) <==> (lower(account_tier) == "diamond"@ && division_index(account_division) < 4 && division_index(friend_division) < 4 && -2 <= division_index(account_division) - division_index(friend_division) <= 2) || (lower(account_tier) == "emerald"@ && division_index(account_division) == 0 && division_index(friend_division) == 3) || (lower(account_tier) == "master"@ && division_index(friend_division) == 0)),
        lower(friend_tier) == "emerald"@ ==> (compatible(account_tier, account_division, friend_tier, friend_division) <==> lower(account_tier) == "emerald"@ || lower(account_tier) == "platinum"@ || (division_index(friend_division) == 0 && lower(account_tier) == "diamond"@ && division_index(account_division) == 3)),
        lower(friend_tier) == "platinum"@ ==> (compatible(account_tier, account_division, friend_tier, friend_division) <==> lower(account_tier) == "platinum"@ || lower(account_tier) == "emerald"@ || lower(account_tier) == "gold"@),
        lower(friend_tier) == "gold"@ ==> (compatible(account_tier, account_division, friend_tier, friend_division) <==> lower(account_tier) == "platinum"@ || lower(account_tier) == "gold"@ || lower(account_tier) == "silver"@),
        lower(friend_tier) == "silver"@ ==> (compatible(account_tier, account_division, friend_tier, friend_division) <==> lower(account_tier) == "gold"@ || lower(account_tier) == "silver"@ || lower(account_tier) == "bronze"@),
        lower(friend_tier) == "bronze"@ ==> (compatible(account_tier, account_division, friend_tier, friend_division) <==> lower(account_tier) == "silver"@ || lower(account_tier) == "bronze"@ || lower(account_tier) == "iron"@),
        lower(friend_tier) == "iron"@ ==> (compatible(account_tier, account_division, friend_tier, friend_division) <==> lower(account_tier) == "iron"@ || lower(account_tier) == "bronze"@ || lower(account_tier) == "silver"@),
        !(lower(friend_tier) == "master"@ || lower(friend_tier) == "diamond"@ || lower(friend_tier) == "emerald"@ || lower(friend_tier) == "platinum"@ || lower(friend_tier) == "gold"@ || lower(friend_tier) == "silver"@ || lower(friend_tier) == "bronze"@ || lower(friend_tier) == "iron"@) ==> !compatible(account_tier, account_division, friend_tier, friend_division),
{
    lemma_tier_literals();
    reveal_strlit("master");
    reveal_strlit("diamond");
    reveal_strlit("emerald");
    reveal_strlit("platinum");
    reveal_strlit("iron");
    reveal_strlit("bronze");
    reveal_strlit("silver");
    reveal_strlit("gold");
    assert("emerald"@[0] == 'e' && "diamond"@[0] == 'd' && "master"@[0] == 'm' && "silver"@[0] == 's'
        && "bronze"@[0] == 'b' && "gold"@[0] == 'g' && "iron"@[0] == 'i');
    assert("emerald"@ != "diamond"@ && "silver"@ != "master"@ && "bronze"@ != "master"@ && "silver"@ != "bronze"@
        && "gold"@ != "iron"@);
    crate::utils::lemma_tier_index_is_tier_order_position(account_tier);
    crate::utils::lemma_tier_index_is_tier_order_position(friend_tier);
    assert(crate::utils::TIER_ORDER@[5]@ == "Platinum"@);
    assert(crate::utils::TIER_ORDER@[6]@ == "Gold"@);
    assert(crate::utils::TIER_ORDER@[7]@ == "Silver"@);
    assert(crate::utils::TIER_ORDER@[8]@ == "Bronze"@);
    assert(crate::utils::TIER_ORDER@[9]@ == "Iron"@);
}

fn is_division(d: Option<i32>, k: i32) -> (b: bool)
    ensures
        b == (d == Some(k)),
{
    match d {
        Some(x) => x == k,
        None => false,
    }
}

/// Whether `account` may play with a friend of the given tier and division.
pub fn can_play_with(account: &Account, friend_tier: &str, friend_division: &str) -> (b: bool)
    ensures
        b == compatible(account.tier@, account.division@, friend_tier@, friend_division@),
{
    let at = account.tier.as_str();
    let ad = division_number_of(account.division.as_str());
    let fd = division_number_of(friend_division);
    if eq_ignore_case(friend_tier, "master") {
        eq_ignore_case(at, "master") || (eq_ignore_case(at, "diamond") && is_division(ad, 1))
    } else if eq_ignore_case(friend_tier, "diamond") {
        let near = match (ad, fd) {
            (Some(a), Some(f)) => eq_ignore_case(at, "diamond") && -2 <= a - f && a - f <= 2,
            _ => false,
        };
        near || (eq_ignore_case(at, "emerald") && is_division(ad, 1) && is_division(fd, 4)) || (
        eq_ignore_case(at, "master") && is_division(fd, 1))
    } else if eq_ignore_case(friend_tier, "emerald") {
        eq_ignore_case(at, "emerald") || eq_ignore_case(at, "platinum") || (is_division(fd, 1)
            && eq_ignore_case(at, "diamond") && is_division(ad, 4))
    } else if eq_ignore_case(friend_tier, "platinum") {
        eq_ignore_case(at, "platinum") || eq_ignore_case(at, "emerald") || eq_ignore_case(at, "gold")
    } else if eq_ignore_case(friend_tier, "iron") {
        eq_ignore_case(at, "iron") || eq_ignore_case(at, "bronze") || eq_ignore_case(at, "silver")
    } else if eq_ignore_case(friend_tier, "bronze") || eq_ignore_case(friend_tier, "silver")
        || eq_ignore_case(friend_tier, "gold") {
        let fi = tier_index_of(friend_tier);
        let ai = tier_index_of(at);
        ai + 1 >= fi && ai <= fi + 1
    } else {
        false
    }
}

// ---------------------------------------------------------------------------
// The accounts the table shows
// ---------------------------------------------------------------------------

/// Whether the account's name or ID contains the search text (trimmed, up to
/// ASCII case); an empty search matches everything.
pub open spec fn matches_search(a: AccountModel, search: Seq<char>) -> bool {
    let q = lower(trim(search));
    q.len() == 0 || contains(lower(a.name), q) || contains(lower(a.account_id), q)
}

/// Whether the table shows the account: it matches the search, and the friend
/// tier is "Show All" or the account may play with the friend.
pub open spec fn shown(a: AccountModel, search: Seq<char>, friend_tier: Seq<char>, friend_division: Seq<char>) -> bool {
    matches_search(a, search) && (friend_tier == "Show All"@ || compatible(
        a.tier,
        a.division,
        friend_tier,
        friend_division,
    ))
}

/// The accounts of `s` that the table shows, in order.
pub open spec fn visible(
    s: Seq<AccountModel>,
    search: Seq<char>,
    friend_tier: Seq<char>,
    friend_division: Seq<char>,
) -> Seq<AccountModel>
    decreases s.len(),
{
    if s.len() == 0 {
        s
    } else if shown(s.last(), search, friend_tier, friend_division) {
        visible(s.drop_last(), search, friend_tier, friend_division).push(s.last())
    } else {
        visible(s.drop_last(), search, friend_tier, friend_division)
    }
}

fn matches_search_exec(a: &Account, query: &Vec<char>, Ghost(search): Ghost<Seq<char>>) -> (b: bool)
    requires
        query@ == lower(trim(search)),
    ensures
        b == matches_search(a@, search),
{
    query.len() == 0 || contains_chars(&lower_chars(&chars_of(a.name.as_str())), query)
        || contains_chars(&lower_chars(&chars_of(a.account_id.as_str())), query)
}

/// The accounts that the table shows, in the order of the list.
pub fn visible_accounts(accounts: &Vec<Account>, search: &str, friend_tier: &str, friend_division: &str) -> (r: Vec<Account>)
    ensures
        models(r@) == visible(models(accounts@), search@, friend_tier@, friend_division@),
{
    let query = lower_chars(&trim_chars(&chars_of(search)));
    let show_all = str_equal(friend_tier, "Show All");
    let mut out: Vec<Account> = Vec::new();
    let n = accounts.len();
    let mut i: usize = 0;
    while i < n
        invariant
            n == accounts@.len(),
            i <= n,
            query@ == lower(trim(search@)),
            show_all == (friend_tier@ == "Show All"@),
            models(out@) == visible(models(accounts@).take(i as int), search@, friend_tier@, friend_division@),
        decreases n - i,
    {
        let a = &accounts[i];
        let ghost prefix = models(accounts@).take((i + 1) as int);
        assert(prefix.drop_last() =~= models(accounts@).take(i as int));
        assert(prefix.last() == a@);
        if matches_search_exec(a, &query, Ghost(search@)) && (show_all || can_play_with(a, friend_tier, friend_division)) {
            let ghost before = out@;
            out.push(a.duplicate());
            assert(models(out@) =~= models(before).push(a@));
        }
        i = i + 1;
    }
    assert(models(accounts@).take(n as int) =~= models(accounts@));
    out
}

/// With no search text and the friend tier "Show All", the table shows every
/// account, in the order of the list.
pub proof fn lemma_show_all_shows_everything(
    s: Seq<AccountModel>,
    search: Seq<char>,
    friend_division: Seq<char>,
)
    requires
        trim(search).len() == 0,
    ensures
        visible(s, search, "Show All"@, friend_division) == s,
    decreases s.len(),
{
    if s.len() > 0 {
        lemma_show_all_shows_everything(s.drop_last(), search, friend_division);
        assert(lower(trim(search)).len() == 0);
        assert(s.drop_last().push(s.last()) =~= s);
    }
}

/// The table shows only accounts of the list, each one that it shows.
pub proof fn lemma_visible_accounts_are_listed(
    s: Seq<AccountModel>,
    search: Seq<char>,
    friend_tier: Seq<char>,
    friend_division: Seq<char>,
)
    ensures
        forall|a: AccountModel| #[trigger] visible(s, search, friend_tier, friend_division).contains(a)
            ==> s.contains(a) && shown(a, search, friend_tier, friend_division),
    decreases s.len(),
{
    if s.len() > 0 {
        let rest = s.drop_last();
        lemma_visible_accounts_are_listed(rest, search, friend_tier, friend_division);
        let vr = visible(rest, search, friend_tier, friend_division);
        assert forall|a: AccountModel| #[trigger] visible(s, search, friend_tier, friend_division).contains(a)
            implies s.contains(a) && shown(a, search, friend_tier, friend_division) by {
            let v = visible(s, search, friend_tier, friend_division);
            let j = choose|j: int| 0 <= j < v.len() && v[j] == a;
            if j < vr.len() {
                assert(vr[j] == a);
                assert(vr.contains(a));
                let i = choose|i: int| 0 <= i < rest.len() && rest[i] == a;
                assert(s[i] == a);
            } else {
                assert(a == s.last());
                assert(s[s.len() - 1] == a);
            }
        }
    }
}

/// The search ignores ASCII case and surrounding white space: two searches
/// that agree up to those show the same accounts.
pub proof fn lemma_search_ignores_case(
    s: Seq<AccountModel>,
    q1: Seq<char>,
    q2: Seq<char>,
    friend_tier: Seq<char>,
    friend_division: Seq<char>,
)
    requires
        lower(trim(q1)) == lower(trim(q2)),
    ensures
        visible(s, q1, friend_tier, friend_division) == visible(s, q2, friend_tier, friend_division),
    decreases s.len(),
{
    if s.len() > 0 {
        lemma_search_ignores_case(s.drop_last(), q1, q2, friend_tier, friend_division);
    }
}

proof fn lemma_lower_keeps_occurrence(text: Seq<char>, q: Seq<char>)
    requires
        contains(text, q),
    ensures
        contains(lower(text), lower(q)),
{
    let i = choose|i: int| crate::text::occurs_at(text, q, i);
    assert(lower(text).subrange(i, i + q.len()) =~= lower(q)) by {
        assert forall|k: int| 0 <= k < q.len() implies lower(text).subrange(i, i + q.len())[k] == lower(q)[k] by {
            assert(text.subrange(i, i + q.len())[k] == q[k]);
            assert(text[i + k] == q[k]);
        }
    }
    assert(crate::text::occurs_at(lower(text), lower(q), i));
}

/// With the friend tier "Show All", every account whose name or ID contains
/// the (trimmed) search text is shown.
pub proof fn lemma_matching_accounts_are_shown(a: AccountModel, search: Seq<char>, friend_division: Seq<char>)
    requires
        contains(a.name, trim(search)) || contains(a.account_id, trim(search)),
    ensures
        shown(a, search, "Show All"@, friend_division),
{
    if contains(a.name, trim(search)) {
        lemma_lower_keeps_occurrence(a.name, trim(search));
    } else {
        lemma_lower_keeps_occurrence(a.account_id, trim(search));
    }
}

// ---------------------------------------------------------------------------
// Adding one account from the form
// ---------------------------------------------------------------------------

/// Why the add form was refused.
#[derive(Clone, Copy, Debug, PartialEq, Eq, Structural)]
pub enum AddError {
    /// The account ID, the summoner name or the password is empty.
    MissingFields,
    /// The region label is not one of the regions.
    InvalidRegion,
    /// An account with the same ID (up to ASCII case) is already held in that region.
    Duplicate,
}

pub open spec fn add_error_text(e: AddError) -> Seq<char> {
    match e {
        AddError::MissingFields => "Please fill in Account ID, Summoner Name, and Password."@,
        AddError::InvalidRegion => "Invalid region selected."@,
        AddError::Duplicate => "This account is already added."@,
    }
}

impl AddError {
    /// The status line shown for the error.
    pub fn message(&self) -> (r: &'static str)
        ensures
            r@ == add_error_text(*self),
    {
        match self {
            AddError::MissingFields => "Please fill in Account ID, Summoner Name, and Password.",
            AddError::InvalidRegion => "Invalid region selected.",
            AddError::Duplicate => "This account is already added.",
        }
    }
}

/// A new account as the add forms make it: no rank yet (`Unranked`, no
/// division, LP or level) and no season history (`N/A`).
pub open spec fn new_account_model(
    id: Seq<char>,
    name: Seq<char>,
    region: Seq<char>,
    region_display: Seq<char>,
    password: Seq<char>,
    description: Seq<char>,
) -> AccountModel {
    AccountModel {
        account_id: id,
        name,
        region,
        region_display,
        password,
        description,
        tier: unranked_text(),
        division: Seq::empty(),
        lp: Seq::empty(),
        level: Seq::empty(),
        reached_last_season: no_history_text(),
        finished_last_season: no_history_text(),
    }
}

/// What the add form gives for its (untrimmed) fields: every field is trimmed;
/// the ID, name and password must be present, the region label must be one
/// of the regions, and the account must not be held yet.
pub open spec fn add_outcome(
    accounts: Seq<AccountModel>,
    account_id: Seq<char>,
    name: Seq<char>,
    region_label: Seq<char>,
    password: Seq<char>,
    description: Seq<char>,
) -> Result<AccountModel, AddError> {
    let id = trim(account_id);
    let label = trim(region_label);
    if id.len() == 0 || trim(name).len() == 0 || trim(password).len() == 0 {
        Err(AddError::MissingFields)
    } else {
        match region_code(label) {
            None => Err(AddError::InvalidRegion),
            Some(code) => if holds_account(accounts, id, code) {
                Err(AddError::Duplicate)
            } else {
                Ok(new_account_model(id, trim(name), code, label, trim(password), trim(description)))
            },
        }
    }
}

fn fresh_account(id: String, name: String, region: String, region_display: String, password: String, description: String) -> (r: Account)
    ensures
        r@ == new_account_model(id@, name@, region@, region_display@, password@, description@),
{
    Account {
        account_id: id,
        name,
        region,
        region_display,
        password,
        description,
        tier: crate::models::default_tier(),
        division: String::new(),
        lp: String::new(),
        level: String::new(),
        reached_last_season: crate::models::default_history(),
        finished_last_season: crate::models::default_history(),
    }
}

/// The account that the add form makes, or why it is refused.
pub fn new_account(
    accounts: &Vec<Account>,
    account_id: &str,
    name: &str,
    region_label: &str,
    password: &str,
    description: &str,
) -> (r: Result<Account, AddError>)
    ensures
        match add_outcome(models(accounts@), account_id@, name@, region_label@, password@, description@) {
            Ok(m) => r matches Ok(a) && a@ == m,
            Err(e) => r matches Err(f) && f == e,
        },
{
    let id = trim_str(account_id);
    let nm = trim_str(name);
    let label = trim_str(region_label);
    let pw = trim_str(password);
    let desc = trim_str(description);
    if id.as_str().is_empty() || nm.as_str().is_empty() || pw.as_str().is_empty() {
        return Err(AddError::MissingFields);
    }
    match region_from_display(label.as_str()) {
        None => Err(AddError::InvalidRegion),
        Some(code) => {
            if has_account(accounts, id.as_str(), code) {
                Err(AddError::Duplicate)
            } else {
                Ok(fresh_account(id, nm, code.to_owned(), label, pw, desc))
            }
        },
    }
}

// ---------------------------------------------------------------------------
// Adding several accounts, one per line
// ---------------------------------------------------------------------------

/// Why a multi-add was refused as a whole.
#[derive(Clone, Copy, Debug, PartialEq, Eq, Structural)]
pub enum MultiAddError {
    InvalidRegion,
    EmptyInput,
}

pub open spec fn multi_add_error_text(e: MultiAddError) -> Seq<char> {
    match e {
        MultiAddError::InvalidRegion => "Invalid region selected."@,
        MultiAddError::EmptyInput => "Please enter account data in the multi-add field."@,
    }
}

impl MultiAddError {
    /// The status line shown for the error.
    pub fn message(&self) -> (r: &'static str)
        ensures
            r@ == multi_add_error_text(*self),
    {
        match self {
            MultiAddError::InvalidRegion => "Invalid region selected.",
            MultiAddError::EmptyInput => "Please enter account data in the multi-add field.",
        }
    }
}

/// A multi-add to run: the region code and label of the new accounts, and the
/// lines to read them from.
#[derive(Debug)]
pub struct MultiAdd {
    pub region: String,
    pub region_display: String,
    pub lines: Vec<String>,
}

/// The pieces of `pieces` that are not blank, trimmed.
pub open spec fn nonblank(pieces: Seq<Seq<char>>) -> Seq<Seq<char>>
    decreases pieces.len(),
{
    if pieces.len() == 0 {
        pieces
    } else if trim(pieces.last()).len() == 0 {
        nonblank(pieces.drop_last())
    } else {
        nonblank(pieces.drop_last()).push(trim(pieces.last()))
    }
}

/// The lines of the multi-add field that hold anything, trimmed.
pub open spec fn entry_lines(input: Seq<char>) -> Seq<Seq<char>> {
    nonblank(split(trim(input), seq!['\n']))
}

/// Checks the region label and the field of a multi-add.
pub fn start_multi_add(region_label: &str, input: &str) -> (r: Result<MultiAdd, MultiAddError>)
    ensures
        match region_code(trim(region_label@)) {
            None => r matches Err(e) && e == MultiAddError::InvalidRegion,
            Some(code) => if trim(input@).len() == 0 {
                r matches Err(e) && e == MultiAddError::EmptyInput
            } else {
                r matches Ok(m) && m.region@ == code && m.region_display@ == trim(region_label@)
                    && crate::account_manager::string_views(m.lines@) == entry_lines(input@)
            },
        },
{
    let label = trim_str(region_label);
    let code = match region_from_display(label.as_str()) {
        None => {
            return Err(MultiAddError::InvalidRegion);
        },
        Some(code) => code,
    };
    let text = trim_chars(&chars_of(input));
    if text.len() == 0 {
        return Err(MultiAddError::EmptyInput);
    }
    let mut newline: Vec<char> = Vec::new();
    newline.push('\n');
    let pieces = split_chars(&text, &newline);
    let mut lines: Vec<String> = Vec::new();
    let n = pieces.len();
    let mut i: usize = 0;
    while i < n
        invariant
            n == pieces@.len(),
            i <= n,
            views(pieces@) == split(text@, newline@),
            crate::account_manager::string_views(lines@) == nonblank(views(pieces@).take(i as int)),
        decreases n - i,
    {
        let piece = trim_chars(&pieces[i]);
        let ghost prefix = views(pieces@).take((i + 1) as int);
        assert(prefix.drop_last() =~= views(pieces@).take(i as int));
        assert(prefix.last() == pieces@[i as int]@);
        if piece.len() > 0 {
            let ghost before = lines@;
            lines.push(crate::text::string_of(&piece));
            assert(crate::account_manager::string_views(lines@) =~= crate::account_manager::string_views(before).push(piece@));
        }
        i = i + 1;
    }
    assert(views(pieces@).take(n as int) =~= views(pieces@));
    assert(newline@ =~= seq!['\n']);
    Ok(MultiAdd { region: code.to_owned(), region_display: label, lines })
}

/// The pieces of a multi-add line: split at `---` where it has one, else at `--`.
pub open spec fn entry_parts(line: Seq<char>) -> Seq<Seq<char>> {
    if contains(line, seq!['-', '-', '-']) {
        split(line, seq!['-', '-', '-'])
    } else {
        split(line, seq!['-', '-'])
    }
}

/// The account that a multi-add line `ID--Name#TAG--password` gives, if any:
/// none where the line has not exactly three pieces, a piece is empty after
/// trimming, or the account is held already or was added earlier in the run.
pub open spec fn entry_account(
    existing: Seq<AccountModel>,
    added: Seq<AccountModel>,
    region: Seq<char>,
    region_display: Seq<char>,
    line: Seq<char>,
) -> Option<AccountModel> {
    let parts = entry_parts(line);
    if parts.len() != 3 {
        None
    } else {
        let id = trim(parts[0]);
        let name = trim(parts[1]);
        let password = trim(parts[2]);
        if id.len() == 0 || name.len() == 0 || password.len() == 0 || holds_account(
            existing,
            id,
            region,
        ) || holds_account(added, id, region) {
            None
        } else {
            Some(new_account_model(id, name, region, region_display, password, Seq::empty()))
        }
    }
}

/// The account that one multi-add line gives, if any.
pub fn multi_add_entry(
    existing: &Vec<Account>,
    added: &Vec<Account>,
    region: &str,
    region_display: &str,
    line: &str,
) -> (r: Option<Account>)
    ensures
        match entry_account(models(existing@), models(added@), region@, region_display@, line@) {
            Some(m) => r matches Some(a) && a@ == m,
            None => r is None,
        },
{
    let v = chars_of(line);
    let mut triple: Vec<char> = Vec::new();
    triple.push('-');
    triple.push('-');
    triple.push('-');
    let mut double: Vec<char> = Vec::new();
    double.push('-');
    double.push('-');
    assert(triple@ =~= seq!['-', '-', '-']);
    assert(double@ =~= seq!['-', '-']);
    let parts = if contains_chars(&v, &triple) {
        split_chars(&v, &triple)
    } else {
        split_chars(&v, &double)
    };
    if parts.len() != 3 {
        return None;
    }
    let id = crate::text::string_of(&trim_chars(&parts[0]));
    let name = crate::text::string_of(&trim_chars(&parts[1]));
    let password = crate::text::string_of(&trim_chars(&parts[2]));
    assert(views(parts@)[0] == parts@[0]@);
    assert(views(parts@)[1] == parts@[1]@);
    assert(views(parts@)[2] == parts@[2]@);
    if id.as_str().is_empty() || name.as_str().is_empty() || password.as_str().is_empty()
        || has_account(existing, id.as_str(), region) || has_account(added, id.as_str(), region) {
        return None;
    }
    Some(fresh_account(id, name, region.to_owned(), region_display.to_owned(), password, String::new()))
}

// ---------------------------------------------------------------------------
// Ctrl+C in the table: the account ID, then the password, in turn
// ---------------------------------------------------------------------------

/// What one Ctrl+C in the table copies.
#[derive(Clone, Copy, Debug, PartialEq, Eq, Structural)]
pub enum CopyTarget {
    AccountId,
    Password,
}

/// The account that was copied last and how many times in a row.
#[derive(Debug)]
pub struct CopyCycle {
    pub last_copied: Option<AccountKey>,
    pub counter: u8,
}

/// A copy cycle as values: the key copied last, and the count.
pub struct CopyState {
    pub last: Option<(Seq<char>, Seq<char>)>,
    pub counter: u8,
}

impl View for CopyCycle {
    type V = CopyState;

    open spec fn view(&self) -> CopyState {
        CopyState {
            last: match self.last_copied {
                Some(k) => Some(k@),
                None => None,
            },
            counter: self.counter,
        }
    }
}

/// The target of the copy with the given count: even counts copy the ID.
pub open spec fn copy_target(counter: u8) -> CopyTarget {
    if counter % 2 == 0 {
        CopyTarget::AccountId
    } else {
        CopyTarget::Password
    }
}

/// One Ctrl+C on the account with the key `key`: the count restarts at zero
/// for another account than the last one, and goes up by one (wrapping)
/// after each copy.
pub open spec fn copy_next(s: CopyState, key: (Seq<char>, Seq<char>)) -> (CopyState, CopyTarget) {
    let start: u8 = if s.last == Some(key) {
        s.counter
    } else {
        0
    };
    (CopyState { last: Some(key), counter: ((start + 1) % 256) as u8 }, copy_target(start))
}

impl CopyCycle {
    /// Nothing copied yet.
    pub fn new() -> (r: Self)
        ensures
            r@.last is None,
            r@.counter == 0,
    {
        CopyCycle { last_copied: None, counter: 0 }
    }

    /// Says what a Ctrl+C on the selected account copies, and counts it.
    pub fn next(&mut self, selected: &AccountKey) -> (t: CopyTarget)
        ensures
            (final(self)@, t) == copy_next(old(self)@, selected@),
    {
        let same = match &self.last_copied {
            Some(k) => k.same_as(selected),
            None => false,
        };
        if !same {
            self.last_copied = Some(selected.duplicate());
            self.counter = 0;
        }
        let t = if self.counter % 2 == 0 {
            CopyTarget::AccountId
        } else {
            CopyTarget::Password
        };
        self.counter = if self.counter == 255 {
            0
        } else {
            self.counter + 1
        };
        t
    }
}

/// Ctrl+C pressed again on the same account copies the other value: the ID
/// and the password alternate, also when the count wraps.
pub proof fn lemma_copy_alternates(s: CopyState, key: (Seq<char>, Seq<char>))
    ensures
        copy_next(copy_next(s, key).0, key).1 != copy_next(s, key).1,
{
}

/// The first Ctrl+C on an account other than the last one copies its ID.
pub proof fn lemma_copy_starts_with_id(s: CopyState, key: (Seq<char>, Seq<char>))
    requires
        s.last != Some(key),
    ensures
        copy_next(s, key).1 == CopyTarget::AccountId,
{
}

// ---------------------------------------------------------------------------
// The selection after a delete
// ---------------------------------------------------------------------------

/// The account selected after the account at `old_index` was deleted: the
/// one now at that position, or the last one where the list got shorter;
/// none in an empty list.
pub fn next_selection(accounts: &Vec<Account>, old_index: usize) -> (r: Option<AccountKey>)
    ensures
        accounts@.len() == 0 ==> r is None,
        accounts@.len() > 0 ==> (r matches Some(k) && k@ == accounts@[
            if old_index < accounts@.len() {
                old_index as int
            } else {
                accounts@.len() - 1
            }
        ].key_model()),
{
    let n = accounts.len();
    if n == 0 {
        return None;
    }
    let i = if old_index < n {
        old_index
    } else {
        n - 1
    };
    Some(accounts[i].key())
}

// ---------------------------------------------------------------------------
// The values of a table row
// ---------------------------------------------------------------------------

/// A value still to be fetched is shown as `...`.
pub open spec fn or_pending(v: Seq<char>) -> Seq<char> {
    if v.len() == 0 {
        "..."@
    } else {
        v
    }
}

/// The ten cells of an account's row: ID, name, region, level, tier (`...`
/// while unranked), division, LP, the two season results (`N/A` when
/// missing) and the description.
pub open spec fn row_values(a: AccountModel) -> Seq<Seq<char>> {
    seq![
        a.account_id,
        a.name,
        a.region_display,
        or_pending(a.level),
        if a.tier.len() == 0 || a.tier == "Unranked"@ {
            "..."@
        } else {
            a.tier
        },
        or_pending(a.division),
        or_pending(a.lp),
        crate::models::or_default(a.reached_last_season, "N/A"@),
        crate::models::or_default(a.finished_last_season, "N/A"@),
        a.description,
    ]
}

fn shown_or(v: &String, fallback: &str) -> (r: String)
    ensures
        r@ == crate::models::or_default(v@, fallback@),
{
    if v.as_str().is_empty() {
        fallback.to_owned()
    } else {
        v.clone()
    }
}

/// The cells of an account's row in the table.
pub fn table_row(a: &Account) -> (r: Vec<String>)
    ensures
        crate::account_manager::string_views(r@) == row_values(a@),
{
    let mut row: Vec<String> = Vec::new();
    row.push(a.account_id.clone());
    row.push(a.name.clone());
    row.push(a.region_display.clone());
    row.push(shown_or(&a.level, "..."));
    row.push(
        if a.tier.as_str().is_empty() || str_equal(a.tier.as_str(), "Unranked") {
            "...".to_owned()
        } else {
            a.tier.clone()
        },
    );
    row.push(shown_or(&a.division, "..."));
    row.push(shown_or(&a.lp, "..."));
    row.push(shown_or(&a.reached_last_season, "N/A"));
    row.push(shown_or(&a.finished_last_season, "N/A"));
    row.push(a.description.clone());
    assert(crate::account_manager::string_views(row@) =~= row_values(a@));
    row
}

/// The password to use for an account: the one it holds, or else the one
/// stored for it (empty where none is stored).
pub fn password_for(account: &Account, stored: Option<String>) -> (r: String)
    ensures
        account.password@.len() > 0 ==> r@ == account.password@,
        account.password@.len() == 0 ==> r@ == match stored {
            Some(p) => p@,
            None => Seq::<char>::empty(),
        },
{
    if account.password.as_str().is_empty() {
        match stored {
            Some(p) => p,
            None => String::new(),
        }
    } else {
        account.password.clone()
    }
}

// ---------------------------------------------------------------------------
// Rank lookups in the background
// ---------------------------------------------------------------------------

/// Why a refresh of all ranks was not started.
#[derive(Clone, Copy, Debug, PartialEq, Eq, Structural)]
pub enum RefreshError {
    AlreadyRunning,
    NoAccounts,
}

pub open spec fn refresh_error_text(e: RefreshError) -> Seq<char> {
    match e {
        RefreshError::AlreadyRunning => "A rank refresh is already running."@,
        RefreshError::NoAccounts => "No accounts to refresh."@,
    }
}

impl RefreshError {
    /// The status line shown for the error.
    pub fn message(&self) -> (r: &'static str)
        ensures
            r@ == refresh_error_text(*self),
    {
        match self {
            RefreshError::AlreadyRunning => "A rank refresh is already running.",
            RefreshError::NoAccounts => "No accounts to refresh.",
        }
    }
}

/// Whether rank lookups are running and how many results are still due.
#[derive(Debug)]
pub struct RankRefresh {
    running: bool,
    pending: usize,
}

/// The state after starting `count` lookups: a running batch takes them on,
/// otherwise a new batch starts; no lookup changes nothing.
pub open spec fn refresh_begun(s: (bool, nat), count: nat) -> (bool, nat) {
    if count == 0 {
        s
    } else if s.0 {
        (true, if s.1 + count > usize::MAX { usize::MAX as nat } else { s.1 + count })
    } else {
        (true, count)
    }
}

/// The state after one result came in.
pub open spec fn refresh_updated(s: (bool, nat)) -> (bool, nat) {
    (s.0, if s.1 == 0 { 0 } else { (s.1 - 1) as nat })
}

/// The state after `k` results came in.
pub open spec fn refresh_updated_times(s: (bool, nat), k: nat) -> (bool, nat)
    decreases k,
{
    if k == 0 {
        s
    } else {
        refresh_updated(refresh_updated_times(s, (k - 1) as nat))
    }
}

/// Whether a running batch has every result in, and the state after
/// closing it.
pub open spec fn refresh_finished(s: (bool, nat)) -> (bool, (bool, nat)) {
    if s.0 && s.1 == 0 {
        (true, (false, 0))
    } else {
        (false, s)
    }
}

impl View for RankRefresh {
    type V = (bool, nat);

    closed spec fn view(&self) -> (bool, nat) {
        (self.running, self.pending as nat)
    }
}

impl RankRefresh {
    /// No lookup running.
    pub fn new() -> (r: Self)
        ensures
            r@ == (false, 0nat),
    {
        RankRefresh { running: false, pending: 0 }
    }

    /// Whether lookups are running.
    pub fn is_running(&self) -> (b: bool)
        ensures
            b == self@.0,
    {
        self.running
    }

    /// Whether a refresh of all `account_count` accounts may start.
    pub fn check_refresh(&self, account_count: usize) -> (r: Result<(), RefreshError>)
        ensures
            self@.0 ==> r == Err::<(), RefreshError>(RefreshError::AlreadyRunning),
            !self@.0 && account_count == 0 ==> r == Err::<(), RefreshError>(RefreshError::NoAccounts),
            !self@.0 && account_count > 0 ==> r is Ok,
    {
        if self.running {
            Err(RefreshError::AlreadyRunning)
        } else if account_count == 0 {
            Err(RefreshError::NoAccounts)
        } else {
            Ok(())
        }
    }

    /// Starts `count` lookups.
    pub fn begin(&mut self, count: usize)
        ensures
            final(self)@ == refresh_begun(old(self)@, count as nat),
    {
        if count == 0 {
            return;
        }
        if self.running {
            self.pending = self.pending.saturating_add(count);
        } else {
            self.running = true;
            self.pending = count;
        }
    }

    /// Counts one result in.
    pub fn record_update(&mut self)
        ensures
            final(self)@ == refresh_updated(old(self)@),
    {
        self.pending = self.pending.saturating_sub(1);
    }

    /// Closes the batch when every result is in; true when it did.
    pub fn finish(&mut self) -> (done: bool)
        ensures
            (done, final(self)@) == refresh_finished(old(self)@),
    {
        if self.running && self.pending == 0 {
            self.running = false;
            true
        } else {
            false
        }
    }
}

/// A batch of `n` lookups started with none running is complete exactly when
/// all `n` results are in, and not before.
pub proof fn lemma_refresh_completes_after_all_results(n: nat, k: nat)
    requires
        0 < n,
        k <= n,
    ensures
        refresh_finished(refresh_updated_times(refresh_begun((false, 0), n), k)).0 <==> k == n,
{
    lemma_updates_count_down(n, k);
}

proof fn lemma_updates_count_down(n: nat, k: nat)
    requires
        0 < n,
        k <= n,
    ensures
        refresh_updated_times((true, n), k) == (true, (n - k) as nat),
    decreases k,
{
    if k > 0 {
        lemma_updates_count_down(n, (k - 1) as nat);
    }
}

} // verus!
