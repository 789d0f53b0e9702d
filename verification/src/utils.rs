//! Regions, tiers, and the rank order in which accounts are listed.

use vstd::prelude::*;
use crate::models::{Account, AccountModel, models};
use crate::text::{chars_of, eq_ignore_case, lower, parse_i32, parse_i32_chars, same_chars, same_ignoring_case, spells, str_equal, trim, trim_chars, upper, upper_chars};

verus! {

/// The regions the application offers: the label shown, and the code OP.GG uses.
pub const REGION_MAP: [(&'static str, &'static str); 11] = [
    ("EUW", "euw"),
    ("EUNE", "eune"),
    ("NA", "na"),
    ("KR", "kr"),
    ("BR", "br"),
    ("JP", "jp"),
    ("OCE", "oce"),
    ("RU", "ru"),
    ("TR", "tr"),
    ("LAN", "lan"),
    ("LAS", "las"),
];

/// The tiers from highest to lowest, followed by the two tiers of an account
/// without a known rank.
pub const TIER_ORDER: [&'static str; 12] = [
    "Challenger",
    "Grandmaster",
    "Master",
    "Diamond",
    "Emerald",
    "Platinum",
    "Gold",
    "Silver",
    "Bronze",
    "Iron",
    "Unranked",
    "Error",
];

/// The region labels and codes, in the order of [`REGION_MAP`].
pub open spec fn region_pairs() -> Seq<(Seq<char>, Seq<char>)> {
    seq![
        ("EUW"@, "euw"@),
        ("EUNE"@, "eune"@),
        ("NA"@, "na"@),
        ("KR"@, "kr"@),
        ("BR"@, "br"@),
        ("JP"@, "jp"@),
        ("OCE"@, "oce"@),
        ("RU"@, "ru"@),
        ("TR"@, "tr"@),
        ("LAN"@, "lan"@),
        ("LAS"@, "las"@),
    ]
}

/// The first region pair from index `i` on whose label is `label`.
pub open spec fn code_for_label_from(label: Seq<char>, i: int) -> Option<Seq<char>>
    decreases 11 - i,
{
    if i < 0 || i >= 11 {
        None
    } else if region_pairs()[i].0 == label {
        Some(region_pairs()[i].1)
    } else {
        code_for_label_from(label, i + 1)
    }
}

/// The first region pair from index `i` on whose code is `code`.
pub open spec fn label_for_code_from(code: Seq<char>, i: int) -> Option<Seq<char>>
    decreases 11 - i,
{
    if i < 0 || i >= 11 {
        None
    } else if region_pairs()[i].1 == code {
        Some(region_pairs()[i].0)
    } else {
        label_for_code_from(code, i + 1)
    }
}

/// The region code whose label is `label`, if any.
pub open spec fn region_code(label: Seq<char>) -> Option<Seq<char>> {
    code_for_label_from(label, 0)
}

/// The label shown for the region code `code`; an unknown code is shown as it is.
pub open spec fn region_label(code: Seq<char>) -> Seq<char> {
    match label_for_code_from(code, 0) {
        Some(label) => label,
        None => code,
    }
}

fn region_entry(i: usize) -> (r: (&'static str, &'static str))
    requires
        i < 11,
    ensures
        (r.0@, r.1@) == region_pairs()[i as int],
{
    let r = match i {
        0 => ("EUW", "euw"),
        1 => ("EUNE", "eune"),
        2 => ("NA", "na"),
        3 => ("KR", "kr"),
        4 => ("BR", "br"),
        5 => ("JP", "jp"),
        6 => ("OCE", "oce"),
        7 => ("RU", "ru"),
        8 => ("TR", "tr"),
        9 => ("LAN", "lan"),
        _ => ("LAS", "las"),
    };
    r
}

/// The region code for a label shown in the region selector.
pub fn region_from_display(display: &str) -> (r: Option<&'static str>)
    ensures
        r is None <==> region_code(display@) is None,
        r matches Some(code) ==> region_code(display@) == Some(code@),
{
    let mut i: usize = 0;
    while i < 11
        invariant
            i <= 11,
            region_code(display@) == code_for_label_from(display@, i as int),
        decreases 11 - i,
    {
        let (label, code) = region_entry(i);
        if str_equal(label, display) {
            return Some(code);
        }
        i = i + 1;
    }
    None
}

/// The label shown for a region code; an unknown code is shown as it is.
pub fn region_display(region: &str) -> (r: String)
    ensures
        r@ == region_label(region@),
{
    let mut i: usize = 0;
    while i < 11
        invariant
            i <= 11,
            label_for_code_from(region@, 0) == label_for_code_from(region@, i as int),
        decreases 11 - i,
    {
        let (label, code) = region_entry(i);
        if str_equal(code, region) {
            return label.to_owned();
        }
        i = i + 1;
    }
    region.to_owned()
}

/// The tier names in the order of [`TIER_ORDER`].
pub open spec fn tier_names() -> Seq<Seq<char>> {
    seq![
        "Challenger"@,
        "Grandmaster"@,
        "Master"@,
        "Diamond"@,
        "Emerald"@,
        "Platinum"@,
        "Gold"@,
        "Silver"@,
        "Bronze"@,
        "Iron"@,
        "Unranked"@,
        "Error"@,
    ]
}

/// The position of the first tier from index `i` on whose name is `tier` up to ASCII case.
pub open spec fn tier_position_from(tier: Seq<char>, i: int) -> int
    decreases 12 - i,
{
    if i < 0 || i >= 12 {
        12
    } else if same_ignoring_case(tier_names()[i], tier) {
        i
    } else {
        tier_position_from(tier, i + 1)
    }
}

/// The position of `tier` in [`TIER_ORDER`] up to ASCII case, or 12 for an unknown tier.
pub open spec fn tier_index(tier: Seq<char>) -> int {
    tier_position_from(tier, 0)
}

/// The name of the tier at position `i` of [`TIER_ORDER`].
pub fn tier_name(i: usize) -> (r: &'static str)
    requires
        i < 12,
    ensures
        r@ == tier_names()[i as int],
{
    let r = match i {
        0 => "Challenger",
        1 => "Grandmaster",
        2 => "Master",
        3 => "Diamond",
        4 => "Emerald",
        5 => "Platinum",
        6 => "Gold",
        7 => "Silver",
        8 => "Bronze",
        9 => "Iron",
        10 => "Unranked",
        _ => "Error",
    };
    r
}

/// The position of a tier in [`TIER_ORDER`] up to ASCII case, or 12.
pub fn tier_index_of(tier: &str) -> (r: usize)
    ensures
        r == tier_index(tier@),
        r <= 12,
{
    let mut i: usize = 0;
    while i < 12
        invariant
            i <= 12,
            tier_index(tier@) == tier_position_from(tier@, i as int),
        decreases 12 - i,
    {
        if eq_ignore_case(tier_name(i), tier) {
            return i;
        }
        i = i + 1;
    }
    12
}

/// The rank of a division: I (or 1) first, IV (or 4) last, anything else after them.
pub open spec fn division_index(division: Seq<char>) -> int {
    let d = upper(trim(division));
    if d == "I"@ || d == "1"@ {
        0
    } else if d == "II"@ || d == "2"@ {
        1
    } else if d == "III"@ || d == "3"@ {
        2
    } else if d == "IV"@ || d == "4"@ {
        3
    } else {
        9
    }
}

pub fn division_index_of(division: &str) -> (r: usize)
    ensures
        r == division_index(division@),
{
    let d = upper_chars(&trim_chars(&chars_of(division)));
    if spells(&d, "I") || spells(&d, "1") {
        0
    } else if spells(&d, "II") || spells(&d, "2") {
        1
    } else if spells(&d, "III") || spells(&d, "3") {
        2
    } else if spells(&d, "IV") || spells(&d, "4") {
        3
    } else {
        9
    }
}

/// The league points written in `lp`, or 0 where they are not a number.
pub open spec fn lp_value(lp: Seq<char>) -> int {
    match parse_i32(trim(lp)) {
        Some(v) => v as int,
        None => 0,
    }
}

pub fn lp_value_of(lp: &str) -> (r: i32)
    ensures
        r as int == lp_value(lp@),
{
    match parse_i32_chars(&trim_chars(&chars_of(lp))) {
        Some(v) => v,
        None => 0,
    }
}

/// The position of an account in the listing: highest tier first, then
/// division I through IV, then the most league points.
pub open spec fn rank_key(tier: Seq<char>, division: Seq<char>, lp: Seq<char>) -> (int, int, int) {
    (tier_index(tier), division_index(division), -lp_value(lp))
}

pub open spec fn account_rank_key(a: AccountModel) -> (int, int, int) {
    rank_key(a.tier, a.division, a.lp)
}

/// The lexicographic order of rank keys.
pub open spec fn key_le(a: (int, int, int), b: (int, int, int)) -> bool {
    ||| a.0 < b.0
    ||| (a.0 == b.0 && a.1 < b.1)
    ||| (a.0 == b.0 && a.1 == b.1 && a.2 <= b.2)
}

/// The key of [`rank_sort_key`]; the league points are negated, so the key
/// exists for every `lp` but `i32::MIN`, whose negation does not fit.
pub fn rank_sort_key(tier: &str, division: &str, lp: &str) -> (r: (usize, usize, i32))
    requires
        lp_value(lp@) != i32::MIN,
    ensures
        (r.0 as int, r.1 as int, r.2 as int) == rank_key(tier@, division@, lp@),
{
    let lp_number = lp_value_of(lp);
    (tier_index_of(tier), division_index_of(division), -lp_number)
}

fn account_key_exec(a: &Account) -> (r: (usize, usize, i64))
    ensures
        (r.0 as int, r.1 as int, r.2 as int) == account_rank_key(a@),
{
    let lp_number = lp_value_of(a.lp.as_str());
    (tier_index_of(a.tier.as_str()), division_index_of(a.division.as_str()), -(lp_number as i64))
}

fn key_le_exec(a: (usize, usize, i64), b: (usize, usize, i64)) -> (r: bool)
    ensures
        r == key_le((a.0 as int, a.1 as int, a.2 as int), (b.0 as int, b.1 as int, b.2 as int)),
{
    a.0 < b.0 || (a.0 == b.0 && a.1 < b.1) || (a.0 == b.0 && a.1 == b.1 && a.2 <= b.2)
}

/// Whether `s` is in rank order.
pub open spec fn in_rank_order(s: Seq<Account>) -> bool {
    forall|i: int, j: int|
        0 <= i < j < s.len() ==> key_le(account_rank_key(s[i]@), account_rank_key(s[j]@))
}

/// The accounts of `s` whose rank key is `k`, in the order of `s`.
pub open spec fn with_rank_key(s: Seq<Account>, k: (int, int, int)) -> Seq<Account>
    decreases s.len(),
{
    if s.len() == 0 {
        Seq::empty()
    } else if account_rank_key(s.last()@) == k {
        with_rank_key(s.drop_last(), k).push(s.last())
    } else {
        with_rank_key(s.drop_last(), k)
    }
}

/// `out` is `input` sorted stably into rank order: it is in rank order, and
/// the accounts of each rank key come in the order they had in `input`.
pub open spec fn is_rank_order_of(out: Seq<Account>, input: Seq<Account>) -> bool {
    &&& in_rank_order(out)
    &&& forall|k: (int, int, int)| #[trigger] with_rank_key(out, k) == with_rank_key(input, k)
}

/// `s` is in rank order (on models).
pub open spec fn models_in_rank_order(s: Seq<AccountModel>) -> bool {
    forall|i: int, j: int|
        0 <= i < j < s.len() ==> key_le(account_rank_key(s[i]), account_rank_key(s[j]))
}

/// The models of `s` whose rank key is `k`, in the order of `s`.
pub open spec fn models_with_rank_key(s: Seq<AccountModel>, k: (int, int, int)) -> Seq<AccountModel>
    decreases s.len(),
{
    if s.len() == 0 {
        Seq::empty()
    } else if account_rank_key(s.last()) == k {
        models_with_rank_key(s.drop_last(), k).push(s.last())
    } else {
        models_with_rank_key(s.drop_last(), k)
    }
}

/// `out` is `input` sorted stably into rank order: it is in rank order, and
/// the accounts of each rank key come in the order they had in `input`.
pub open spec fn is_rank_ordering(out: Seq<AccountModel>, input: Seq<AccountModel>) -> bool {
    &&& models_in_rank_order(out)
    &&& forall|k: (int, int, int)| #[trigger] models_with_rank_key(out, k) == models_with_rank_key(input, k)
}

proof fn lemma_models_with_rank_key(s: Seq<Account>, k: (int, int, int))
    ensures
        models_with_rank_key(models(s), k) == models(with_rank_key(s, k)),
    decreases s.len(),
{
    if s.len() > 0 {
        lemma_models_with_rank_key(s.drop_last(), k);
        assert(models(s).drop_last() =~= models(s.drop_last()));
        assert(models(s).last() == s.last()@);
        if account_rank_key(s.last()@) == k {
            assert(models(with_rank_key(s.drop_last(), k).push(s.last())) =~= models(
                with_rank_key(s.drop_last(), k),
            ).push(s.last()@));
        }
    } else {
        assert(models(s) =~= Seq::<AccountModel>::empty());
        assert(models(Seq::<Account>::empty()) =~= Seq::<AccountModel>::empty());
    }
}

/// A stable rank ordering of accounts is one of their models too.
pub proof fn lemma_rank_order_models(out: Seq<Account>, input: Seq<Account>)
    requires
        is_rank_order_of(out, input),
    ensures
        is_rank_ordering(models(out), models(input)),
{
    assert forall|k: (int, int, int)| #[trigger]
        models_with_rank_key(models(out), k) == models_with_rank_key(models(input), k) by {
        lemma_models_with_rank_key(out, k);
        lemma_models_with_rank_key(input, k);
    }
    assert forall|i: int, j: int| 0 <= i < j < models(out).len() implies key_le(
        account_rank_key(models(out)[i]),
        account_rank_key(models(out)[j]),
    ) by {
        assert(models(out)[i] == out[i]@);
        assert(models(out)[j] == out[j]@);
    }
}

proof fn lemma_with_rank_key_concat(a: Seq<Account>, b: Seq<Account>, k: (int, int, int))
    ensures
        with_rank_key(a + b, k) == with_rank_key(a, k) + with_rank_key(b, k),
    decreases b.len(),
{
    if b.len() == 0 {
        assert(a + b =~= a);
        assert(with_rank_key(a, k) + with_rank_key(b, k) =~= with_rank_key(a, k));
    } else {
        lemma_with_rank_key_concat(a, b.drop_last(), k);
        assert((a + b).drop_last() =~= a + b.drop_last());
        assert((a + b).last() == b.last());
        if account_rank_key(b.last()@) == k {
            assert(with_rank_key(a, k) + with_rank_key(b, k) =~= (with_rank_key(a, k)
                + with_rank_key(b.drop_last(), k)).push(b.last()));
        }
    }
}

proof fn lemma_with_rank_key_none(s: Seq<Account>, k: (int, int, int))
    requires
        forall|i: int| 0 <= i < s.len() ==> account_rank_key(#[trigger] s[i]@) != k,
    ensures
        with_rank_key(s, k) == Seq::<Account>::empty(),
    decreases s.len(),
{
    if s.len() > 0 {
        assert forall|i: int| 0 <= i < s.drop_last().len() implies account_rank_key(
            #[trigger] s.drop_last()[i]@,
        ) != k by {
            assert(s.drop_last()[i] == s[i]);
        }
        lemma_with_rank_key_none(s.drop_last(), k);
        assert(account_rank_key(s[s.len() - 1]@) != k);
    }
}

proof fn lemma_key_le_trans(a: (int, int, int), b: (int, int, int), c: (int, int, int))
    requires
        key_le(a, b),
        key_le(b, c),
    ensures
        key_le(a, c),
{
}

/// Sorts the accounts stably into rank order: highest tier first, then
/// division I through IV, then the most league points.
pub fn sort_accounts(accounts: &mut Vec<Account>)
    ensures
        is_rank_order_of(final(accounts)@, old(accounts)@),
        is_rank_ordering(models(final(accounts)@), models(old(accounts)@)),
{
    let mut input: Vec<Account> = Vec::new();
    std::mem::swap(accounts, &mut input);
    let n = input.len();
    let mut sorted: Vec<Account> = Vec::new();
    let mut keys: Vec<(usize, usize, i64)> = Vec::new();
    let mut i: usize = 0;
    while i < n
        invariant
            n == input@.len(),
            i <= n,
            keys@.len() == sorted@.len(),
            forall|j: int|
                0 <= j < keys@.len() ==> (keys@[j].0 as int, keys@[j].1 as int, keys@[j].2 as int)
                    == account_rank_key(#[trigger] sorted@[j]@),
            in_rank_order(sorted@),
            forall|k: (int, int, int)|
                #[trigger] with_rank_key(sorted@, k) == with_rank_key(input@.take(i as int), k),
        decreases n - i,
    {
        let x = input[i].duplicate();
        let kx = account_key_exec(&x);
        let m = sorted.len();
        let mut p: usize = 0;
        while p < m && key_le_exec(keys[p], kx)
            invariant
                m == sorted@.len(),
                m == keys@.len(),
                p <= m,
                (kx.0 as int, kx.1 as int, kx.2 as int) == account_rank_key(x@),
                forall|j: int|
                    0 <= j < keys@.len() ==> (keys@[j].0 as int, keys@[j].1 as int, keys@[j].2 as int)
                        == account_rank_key(#[trigger] sorted@[j]@),
                forall|j: int|
                    0 <= j < p ==> key_le(account_rank_key(#[trigger] sorted@[j]@), account_rank_key(x@)),
            decreases m - p,
        {
            assert(key_le(account_rank_key(sorted@[p as int]@), account_rank_key(x@)));
            p = p + 1;
        }
        let ghost s = sorted@;
        let ghost kxs = account_rank_key(x@);
        proof {
            // Everything from `p` on ranks strictly after `x`.
            assert forall|j: int| p <= j < m implies !key_le(
                account_rank_key(#[trigger] s[j]@),
                kxs,
            ) by {
                if p < m {
                    assert(!key_le(account_rank_key(s[p as int]@), kxs));
                    if j > p {
                        assert(key_le(account_rank_key(s[p as int]@), account_rank_key(s[j]@)));
                        if key_le(account_rank_key(s[j]@), kxs) {
                            lemma_key_le_trans(account_rank_key(s[p as int]@), account_rank_key(s[j]@), kxs);
                        }
                    }
                }
            }
        }
        sorted.insert(p, x);
        keys.insert(p, kx);
        proof {
            let s2 = sorted@;
            assert(s2 =~= s.take(p as int) + seq![x] + s.skip(p as int));
            assert forall|a: int, b: int| 0 <= a < b < s2.len() implies key_le(
                account_rank_key(s2[a]@),
                account_rank_key(s2[b]@),
            ) by {
                if a < p && b == p {
                } else if a < p && b > p {
                    assert(s2[b] == s[b - 1]);
                    assert(key_le(account_rank_key(s[a]@), account_rank_key(s[b - 1]@)));
                } else if a == p {
                    assert(s2[b] == s[b - 1]);
                    assert(!key_le(account_rank_key(s[b - 1]@), kxs));
                } else if a > p {
                    assert(s2[a] == s[a - 1]);
                    assert(s2[b] == s[b - 1]);
                }
            }
            assert forall|j: int|
                0 <= j < keys@.len() implies (keys@[j].0 as int, keys@[j].1 as int, keys@[j].2 as int)
                == account_rank_key(#[trigger] s2[j]@) by {
                if j > p {
                    assert(s2[j] == s[j - 1]);
                }
            }
            assert(input@.take((i + 1) as int) =~= input@.take(i as int).push(x));
            assert forall|k: (int, int, int)| #[trigger]
                with_rank_key(s2, k) == with_rank_key(input@.take((i + 1) as int), k) by {
                let front = s.take(p as int);
                let back = s.skip(p as int);
                let prev = input@.take(i as int);
                assert(s =~= front + back);
                assert(s2 =~= (front + seq![x]) + back);
                lemma_with_rank_key_concat(front, back, k);
                lemma_with_rank_key_concat(front + seq![x], back, k);
                lemma_with_rank_key_concat(front, seq![x], k);
                assert(seq![x].drop_last() =~= Seq::<Account>::empty());
                assert(with_rank_key(seq![x].drop_last(), k) =~= Seq::<Account>::empty());
                assert(seq![x].last() == x);
                assert(prev.push(x).drop_last() =~= prev);
                assert(prev.push(x).last() == x);
                assert(with_rank_key(s, k) == with_rank_key(prev, k));
                if k == kxs {
                    assert forall|j: int| 0 <= j < back.len() implies account_rank_key(
                        #[trigger] back[j]@,
                    ) != k by {
                        assert(back[j] == s[j + p]);
                        assert(!key_le(account_rank_key(s[j + p]@), kxs));
                    }
                    lemma_with_rank_key_none(back, k);
                    assert(with_rank_key(seq![x], k) =~= seq![x]);
                    assert(with_rank_key(front, k) + with_rank_key(back, k) =~= with_rank_key(front, k));
                    assert(with_rank_key(front, k) + seq![x] + with_rank_key(back, k) =~= with_rank_key(front, k).push(x));
                    assert(with_rank_key(s2, k) == with_rank_key(prev, k).push(x));
                } else {
                    assert(with_rank_key(seq![x], k) =~= Seq::<Account>::empty());
                    assert(with_rank_key(front, k) + Seq::<Account>::empty() =~= with_rank_key(front, k));
                    assert(with_rank_key(s2, k) == with_rank_key(prev, k));
                }
            }
        }
        i = i + 1;
    }
    assert(input@.take(n as int) =~= input@);
    proof {
        lemma_rank_order_models(sorted@, input@);
    }
    *accounts = sorted;
}


proof fn lemma_region_pairs_distinct()
    ensures
        forall|i: int, j: int|
            0 <= i < j < 11 ==> region_pairs()[i].0 != region_pairs()[j].0 && region_pairs()[i].1
                != region_pairs()[j].1,
{
    reveal_strlit("EUW");
    reveal_strlit("EUNE");
    reveal_strlit("NA");
    reveal_strlit("KR");
    reveal_strlit("BR");
    reveal_strlit("JP");
    reveal_strlit("OCE");
    reveal_strlit("RU");
    reveal_strlit("TR");
    reveal_strlit("LAN");
    reveal_strlit("LAS");
    reveal_strlit("euw");
    reveal_strlit("eune");
    reveal_strlit("na");
    reveal_strlit("kr");
    reveal_strlit("br");
    reveal_strlit("jp");
    reveal_strlit("oce");
    reveal_strlit("ru");
    reveal_strlit("tr");
    reveal_strlit("lan");
    reveal_strlit("las");
    assert forall|i: int, j: int| 0 <= i < j < 11 implies region_pairs()[i].0 != region_pairs()[j].0
        && region_pairs()[i].1 != region_pairs()[j].1 by {
        let a = region_pairs()[i];
        let b = region_pairs()[j];
        assert(a.0.len() != b.0.len() || a.0[0] != b.0[0] || a.0[1] != b.0[1] || a.0[a.0.len() - 1] != b.0[b.0.len() - 1]);
        assert(a.1.len() != b.1.len() || a.1[0] != b.1[0] || a.1[1] != b.1[1] || a.1[a.1.len() - 1] != b.1[b.1.len() - 1]);
    }
}

proof fn lemma_code_for_label_from(label: Seq<char>, code: Seq<char>, k: int)
    requires
        0 <= k <= 11,
    ensures
        code_for_label_from(label, k) == Some(code) <==> exists|i: int|
            k <= i < 11 && #[trigger] region_pairs()[i] == (label, code),
    decreases 11 - k,
{
    lemma_region_pairs_distinct();
    if k < 11 {
        lemma_code_for_label_from(label, code, k + 1);
        if region_pairs()[k].0 == label {
            assert forall|i: int| k < i < 11 implies #[trigger] region_pairs()[i] != (label, code) by {
                assert(region_pairs()[k].0 != region_pairs()[i].0);
            }
        }
    }
}

proof fn lemma_label_for_code_from(label: Seq<char>, code: Seq<char>, k: int)
    requires
        0 <= k <= 11,
    ensures
        label_for_code_from(code, k) == Some(label) <==> exists|i: int|
            k <= i < 11 && #[trigger] region_pairs()[i] == (label, code),
    decreases 11 - k,
{
    lemma_region_pairs_distinct();
    if k < 11 {
        lemma_label_for_code_from(label, code, k + 1);
        if region_pairs()[k].1 == code {
            assert forall|i: int| k < i < 11 implies #[trigger] region_pairs()[i] != (label, code) by {
                assert(region_pairs()[k].1 != region_pairs()[i].1);
            }
        }
    }
}

/// Choosing a region by its label and showing a region by its code are
/// inverse: a label selects a code exactly when that code is shown with that
/// label.
pub proof fn lemma_region_round_trip(label: Seq<char>, code: Seq<char>)
    ensures
        region_code(label) == Some(code) <==> label_for_code_from(code, 0) == Some(label),
        region_code(label) == Some(code) ==> region_label(code) == label,
{
    lemma_code_for_label_from(label, code, 0);
    lemma_label_for_code_from(label, code, 0);
}

proof fn lemma_tier_names_distinct()
    ensures
        forall|i: int, j: int| 0 <= i < j < 12 ==> lower(tier_names()[i]) != lower(tier_names()[j]),
{
    reveal_strlit("Challenger");
    reveal_strlit("Grandmaster");
    reveal_strlit("Master");
    reveal_strlit("Diamond");
    reveal_strlit("Emerald");
    reveal_strlit("Platinum");
    reveal_strlit("Gold");
    reveal_strlit("Silver");
    reveal_strlit("Bronze");
    reveal_strlit("Iron");
    reveal_strlit("Unranked");
    reveal_strlit("Error");
    assert forall|i: int, j: int| 0 <= i < j < 12 implies lower(tier_names()[i]) != lower(tier_names()[j]) by {
        let a = tier_names()[i];
        let b = tier_names()[j];
        assert(a.len() != b.len() || a[0] != b[0]);
        assert(lower(a).len() == a.len() && lower(b).len() == b.len());
        if a.len() == b.len() {
            assert(lower(a)[0] == crate::text::lower_char(a[0]));
            assert(lower(b)[0] == crate::text::lower_char(b[0]));
        }
    }
}

proof fn lemma_tier_position_from(t: Seq<char>, i: int, k: int)
    requires
        0 <= k <= i < 12,
        same_ignoring_case(tier_names()[i], t),
    ensures
        tier_position_from(t, k) == i,
    decreases i - k,
{
    lemma_tier_names_distinct();
    if k < i {
        assert(!same_ignoring_case(tier_names()[k], t));
        lemma_tier_position_from(t, i, k + 1);
    }
}

proof fn lemma_tier_position_found(t: Seq<char>, k: int)
    requires
        0 <= k <= 12,
    ensures
        k <= tier_position_from(t, k) <= 12,
        tier_position_from(t, k) < 12 ==> same_ignoring_case(tier_names()[tier_position_from(t, k)], t),
        tier_position_from(t, k) == 12 ==> forall|j: int| k <= j < 12 ==> !same_ignoring_case(#[trigger] tier_names()[j], t),
    decreases 12 - k,
{
    if k < 12 {
        lemma_tier_position_found(t, k + 1);
    }
}

/// The tier order is [`TIER_ORDER`]: the names listed there are the tier
/// names, and a tier written as the name at position `i` of [`TIER_ORDER`],
/// in any ASCII case, has index `i`, so a higher tier sorts before a lower
/// one. Any other text has index 12, after every tier.
pub proof fn lemma_tier_index_is_tier_order_position(t: Seq<char>)
    ensures
        TIER_ORDER@.len() == 12,
        forall|i: int| 0 <= i < 12 ==> #[trigger] TIER_ORDER@[i]@ == tier_names()[i],
        forall|i: int| 0 <= i < 12 && same_ignoring_case(t, #[trigger] TIER_ORDER@[i]@) ==> tier_index(t) == i,
        (forall|i: int| 0 <= i < 12 ==> !same_ignoring_case(t, #[trigger] TIER_ORDER@[i]@)) ==> tier_index(t) == 12,
        0 <= tier_index(t) <= 12,
        tier_index(t) < 12 ==> same_ignoring_case(t, TIER_ORDER@[tier_index(t)]@),
{
    assert forall|i: int| 0 <= i < 12 && same_ignoring_case(t, #[trigger] TIER_ORDER@[i]@) implies tier_index(t) == i by {
        lemma_tier_position_from(t, i, 0);
    }
    lemma_tier_position_found(t, 0);
    if tier_index(t) < 12 {
        assert(same_ignoring_case(t, TIER_ORDER@[tier_index(t)]@));
    }
}

/// What the rank order puts first: a higher tier (earlier in
/// [`TIER_ORDER`]) whatever the divisions and league points; within a tier,
/// division I before II before III before IV (written as Roman numerals or
/// digits, in any ASCII case, with surrounding white space), and any other
/// division after them; within a tier and division, more league points first.
pub proof fn lemma_rank_order_priorities(
    t1: Seq<char>,
    d1: Seq<char>,
    l1: Seq<char>,
    t2: Seq<char>,
    d2: Seq<char>,
    l2: Seq<char>,
)
    ensures
        tier_index(t1) < tier_index(t2) ==> key_le(rank_key(t1, d1, l1), rank_key(t2, d2, l2))
            && !key_le(rank_key(t2, d2, l2), rank_key(t1, d1, l1)),
        tier_index(t1) == tier_index(t2) && division_index(d1) < division_index(d2) ==> key_le(
            rank_key(t1, d1, l1),
            rank_key(t2, d2, l2),
        ) && !key_le(rank_key(t2, d2, l2), rank_key(t1, d1, l1)),
        tier_index(t1) == tier_index(t2) && division_index(d1) == division_index(d2) ==> (key_le(
            rank_key(t1, d1, l1),
            rank_key(t2, d2, l2),
        ) <==> lp_value(l1) >= lp_value(l2)),
        upper(trim(d1)) == "I"@ || upper(trim(d1)) == "1"@ ==> division_index(d1) == 0,
        upper(trim(d1)) == "II"@ || upper(trim(d1)) == "2"@ ==> division_index(d1) == 1,
        upper(trim(d1)) == "III"@ || upper(trim(d1)) == "3"@ ==> division_index(d1) == 2,
        upper(trim(d1)) == "IV"@ || upper(trim(d1)) == "4"@ ==> division_index(d1) == 3,
        !(upper(trim(d1)) == "I"@ || upper(trim(d1)) == "1"@ || upper(trim(d1)) == "II"@ || upper(trim(d1)) == "2"@
            || upper(trim(d1)) == "III"@ || upper(trim(d1)) == "3"@ || upper(trim(d1)) == "IV"@ || upper(trim(d1))
            == "4"@) ==> division_index(d1) > 3,
{
    reveal_strlit("I");
    reveal_strlit("II");
    reveal_strlit("III");
    reveal_strlit("IV");
    reveal_strlit("1");
    reveal_strlit("2");
    reveal_strlit("3");
    reveal_strlit("4");
    assert("I"@.len() == 1 && "II"@.len() == 2 && "III"@.len() == 3 && "IV"@.len() == 2);
    assert("II"@[1] == 'I' && "IV"@[1] == 'V');
    assert("II"@ != "IV"@);
    assert("1"@[0] == '1' && "2"@[0] == '2' && "3"@[0] == '3' && "4"@[0] == '4' && "I"@[0] == 'I');
    assert("1"@ != "2"@ && "1"@ != "3"@ && "1"@ != "4"@ && "2"@ != "3"@ && "2"@ != "4"@ && "3"@ != "4"@);
    assert("1"@ != "II"@ && "1"@ != "III"@ && "1"@ != "IV"@ && "2"@ != "I"@ && "2"@ != "III"@ && "2"@ != "IV"@
        && "3"@ != "I"@ && "3"@ != "II"@ && "3"@ != "IV"@ && "4"@ != "I"@ && "4"@ != "II"@ && "4"@ != "III"@);
}

/// [`REGION_MAP`] is the table that [`region_pairs`] describes.
pub proof fn lemma_region_map_entries()
    ensures
        REGION_MAP@.len() == 11,
        forall|i: int| 0 <= i < 11 ==> (#[trigger] REGION_MAP@[i].0@, REGION_MAP@[i].1@) == region_pairs()[i],
{
}

/// Every entry of the region table round-trips: its label selects its code,
/// and its code is shown with its label.
pub proof fn lemma_region_table_round_trip(i: int)
    requires
        0 <= i < 11,
    ensures
        region_code(region_pairs()[i].0) == Some(region_pairs()[i].1),
        region_label(region_pairs()[i].1) == region_pairs()[i].0,
{
    let (label, code) = region_pairs()[i];
    assert(region_pairs()[i] == (label, code));
    lemma_code_for_label_from(label, code, 0);
    lemma_label_for_code_from(label, code, 0);
}

proof fn lemma_count_in_key_group(s: Seq<AccountModel>, x: AccountModel)
    ensures
        s.to_multiset().count(x) == models_with_rank_key(s, account_rank_key(x)).to_multiset().count(x),
    decreases s.len(),
{
    broadcast use vstd::seq_lib::group_to_multiset_ensures;

    if s.len() == 0 {
        assert(models_with_rank_key(s, account_rank_key(x)) =~= s);
    } else {
        let prefix = s.drop_last();
        lemma_count_in_key_group(prefix, x);
        assert(s =~= prefix.push(s.last()));
    }
}

/// Ordering the accounts by rank neither loses nor adds an account: a stable
/// rank ordering holds the same accounts, as often each, as its input.
pub proof fn lemma_rank_ordering_is_permutation(out: Seq<AccountModel>, input: Seq<AccountModel>)
    requires
        is_rank_ordering(out, input),
    ensures
        out.to_multiset() == input.to_multiset(),
        out.len() == input.len(),
{
    broadcast use vstd::seq_lib::group_to_multiset_ensures;

    assert forall|x: AccountModel| out.to_multiset().count(x) == input.to_multiset().count(x) by {
        lemma_count_in_key_group(out, x);
        lemma_count_in_key_group(input, x);
        assert(models_with_rank_key(out, account_rank_key(x)) == models_with_rank_key(input, account_rank_key(x)));
    }
    assert(out.to_multiset() =~= input.to_multiset());
    assert(out.len() == out.to_multiset().len());
    assert(input.len() == input.to_multiset().len());
}

} // verus!
