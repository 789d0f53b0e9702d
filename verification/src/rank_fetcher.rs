//! Reading a player's rank, level and season history from an OP.GG profile
//! page. Fetching the page is the application's part; everything computed
//! from the page text is here.

use vstd::prelude::*;
use crate::models::{Account, RankInfo, RankModel, or_default, unranked_text, error_text, pending_text};
use crate::text::{
    chars_of, concat, contains, contains_chars, last_index_of, last_index_of_exec, lower,
    lower_chars, replace, replace_chars, same_chars, same_chars_ignoring_case, same_ignoring_case,
    slice_of, spells, string_of, strip, strip_chars, swap_char, swap_char_exec, trim, trim_chars, upper,
    upper_chars, views, without_char, without_char_exec, words, words_of, upper_char,
};

verus! {

// ---------------------------------------------------------------------------
// The outside crates: `regex`, `scraper`, `html_escape`, `urlencoding`
// ---------------------------------------------------------------------------

#[verifier::external_type_specification]
#[verifier::external_body]
pub struct ExRegex(regex::Regex);

#[verifier::external_type_specification]
#[verifier::external_body]
pub struct ExScraperHtml(scraper::Html);

/// Whether `regex::Regex::new` accepts `pattern`.
pub uninterp spec fn regex_accepts(pattern: Seq<char>) -> bool;

/// The capture groups of the leftmost match of `pattern` in `text`, group 0
/// first, as `regex::Regex::captures` reports them; `None` where there is no match.
pub uninterp spec fn regex_captures(pattern: Seq<char>, text: Seq<char>) -> Option<Seq<Option<Seq<char>>>>;

/// The capture groups of every successive non-overlapping match of `pattern`
/// in `text`, as `regex::Regex::captures_iter` yields them.
pub uninterp spec fn regex_all_captures(pattern: Seq<char>, text: Seq<char>) -> Seq<Seq<Option<Seq<char>>>>;

#[verifier::external_type_specification]
#[verifier::external_body]
pub struct ExScraperSelector(scraper::Selector);

/// Whether `scraper::Selector::parse` accepts the CSS selector `selector`.
pub uninterp spec fn css_selector_accepts(selector: Seq<char>) -> bool;

/// For each element of the HTML document `source` that `selector` matches,
/// in the order `scraper::Html::select` yields them, the value of its
/// attribute `attribute`, or `None` where it has none.
pub uninterp spec fn html_selected_attributes(source: Seq<char>, selector: Seq<char>, attribute: Seq<char>) -> Seq<Option<Seq<char>>>;

/// `text` with its HTML character references decoded, as
/// `html_escape::decode_html_entities` gives it.
pub uninterp spec fn html_entities_decoded(text: Seq<char>) -> Seq<char>;

/// The uppercase mapping of `c`, as `char::to_uppercase` yields it.
pub uninterp spec fn unicode_uppercase(c: char) -> Seq<char>;

/// `regex::Regex::new`. Whether it succeeds is a function of the pattern alone.
#[verifier::external_body]
fn compile_regex(pattern: &str) -> (r: Option<regex::Regex>)
    ensures
        r is Some <==> regex_accepts(pattern@),
{
    regex::Regex::new(pattern).ok()
}

/// A compiled regular expression together with the pattern it was compiled from.
struct Pattern {
    source: String,
    re: regex::Regex,
}

fn compile(pattern: &str) -> (r: Option<Pattern>)
    ensures
        r is Some <==> regex_accepts(pattern@),
        r matches Some(p) ==> p.source@ == pattern@,
{
    match compile_regex(pattern) {
        Some(re) => Some(Pattern { source: pattern.to_owned(), re }),
        None => None,
    }
}

/// The views of a list of optional capture groups.
pub open spec fn group_views(g: Seq<Option<String>>) -> Seq<Option<Seq<char>>> {
    g.map_values(|o: Option<String>| match o {
        Some(s) => Some(s@),
        None => None,
    })
}

/// `regex::Regex::captures` on the pattern `p` was compiled from, each group
/// turned into an owned string.
#[verifier::external_body]
fn captures(p: &Pattern, text: &str) -> (r: Option<Vec<Option<String>>>)
    ensures
        match r {
            Some(g) => regex_captures(p.source@, text@) == Some(group_views(g@)),
            None => regex_captures(p.source@, text@) is None,
        },
{
    p.re.captures(text).map(|c| c.iter().map(|m| m.map(|m| m.as_str().to_owned())).collect())
}

/// `regex::Regex::captures_iter`, every match's groups turned into owned strings.
#[verifier::external_body]
fn all_captures(p: &Pattern, text: &str) -> (r: Vec<Vec<Option<String>>>)
    ensures
        regex_all_captures(p.source@, text@) == r@.map_values(|g: Vec<Option<String>>| group_views(g@)),
{
    p.re.captures_iter(text).map(|c| c.iter().map(|m| m.map(|m| m.as_str().to_owned())).collect()).collect()
}

/// `scraper::Html::parse_document`.
#[verifier::external_body]
fn parse_tree(source: &str) -> scraper::Html {
    scraper::Html::parse_document(source)
}

/// `html_escape::decode_html_entities`.
#[verifier::external_body]
fn decode_html_entities(text: &str) -> (r: String)
    ensures
        r@ == html_entities_decoded(text@),
{
    html_escape::decode_html_entities(text).into_owned()
}

/// `char::to_uppercase`, collected into a string. An ASCII character maps to
/// its ASCII capital, or to itself where it has none.
#[verifier::external_body]
fn char_uppercase(c: char) -> (r: String)
    ensures
        r@ == unicode_uppercase(c),
        (c as u32) < 128 ==> r@ == seq![upper_char(c)],
{
    c.to_uppercase().collect()
}

/// Whether the byte `b` is left as it is in a URL: an ASCII letter or digit,
/// or one of `-`, `.`, `_`, `~`.
pub open spec fn url_safe(b: u8) -> bool {
    ||| 48 <= b <= 57
    ||| 65 <= b <= 90
    ||| 97 <= b <= 122
    ||| b == 45 || b == 46 || b == 95 || b == 126
}

/// The upper-case hexadecimal digit of `d` (below 16).
pub open spec fn hex_digit(d: u8) -> char {
    if d < 10 {
        (48 + d) as char
    } else {
        (55 + d) as char
    }
}

/// `bytes` percent-encoded: safe bytes as themselves, every other byte as `%`
/// and two upper-case hexadecimal digits.
pub open spec fn percent_encoded(bytes: Seq<u8>) -> Seq<char>
    decreases bytes.len(),
{
    if bytes.len() == 0 {
        Seq::empty()
    } else {
        let b = bytes.last();
        percent_encoded(bytes.drop_last()) + if url_safe(b) {
            seq![b as char]
        } else {
            seq!['%', hex_digit(b / 16), hex_digit(b % 16)]
        }
    }
}

/// `s` URL-encoded over its UTF-8 bytes, as `urlencoding::encode` gives it.
pub open spec fn url_encoded(s: Seq<char>) -> Seq<char> {
    percent_encoded(vstd::utf8::encode_utf8(s))
}

/// `urlencoding::encode`.
#[verifier::external_body]
fn url_encode(s: &str) -> (r: String)
    ensures
        r@ == url_encoded(s@),
{
    urlencoding::encode(s).into_owned()
}

/// A parsed HTML document, kept together with its text. Its tree is always
/// `scraper`'s parse of that text: [`HtmlDocument::parse_document`] is the
/// only way to make one.
pub struct HtmlDocument {
    source: String,
    tree: scraper::Html,
}

impl HtmlDocument {
    /// The text the document was parsed from.
    pub closed spec fn text(&self) -> Seq<char> {
        self.source@
    }

    /// Parses a whole HTML document.
    pub fn parse_document(document: &str) -> (r: HtmlDocument)
        ensures
            r.text() == document@,
    {
        HtmlDocument { source: document.to_owned(), tree: parse_tree(document) }
    }
}

/// `scraper::Selector::parse`. Whether it succeeds is a function of the
/// selector alone.
#[verifier::external_body]
fn parse_selector(selector: &str) -> (r: Option<scraper::Selector>)
    ensures
        r is Some <==> css_selector_accepts(selector@),
{
    scraper::Selector::parse(selector).ok()
}

/// A parsed CSS selector together with the text it was parsed from.
struct CssSelector {
    source: String,
    parsed: scraper::Selector,
}

fn compile_selector(selector: &str) -> (r: Option<CssSelector>)
    ensures
        r is Some <==> css_selector_accepts(selector@),
        r matches Some(c) ==> c.source@ == selector@,
{
    match parse_selector(selector) {
        Some(parsed) => Some(CssSelector { source: selector.to_owned(), parsed }),
        None => None,
    }
}

/// `scraper::Html::select` on the document's tree, each matching element
/// turned into the owned value of its attribute `attribute`
/// (`scraper::node::Element::attr`).
#[verifier::external_body]
fn selected_attributes(soup: &HtmlDocument, selector: &CssSelector, attribute: &str) -> (r: Vec<Option<String>>)
    ensures
        html_selected_attributes(soup.text(), selector.source@, attribute@) == group_views(r@),
{
    soup.tree.select(&selector.parsed).map(|element| element.value().attr(attribute).map(str::to_owned)).collect()
}

/// The elements that hold a page's summary: `<meta name="description">`.
pub const META_DESCRIPTION_SELECTOR: &'static str = r#"meta[name="description"]"#;

/// The first value present in `values` from index `i` on.
pub open spec fn first_present(values: Seq<Option<Seq<char>>>, i: int) -> Option<Seq<char>>
    decreases values.len() - i,
{
    if i < 0 || i >= values.len() {
        None
    } else if values[i] is Some {
        values[i]
    } else {
        first_present(values, i + 1)
    }
}

/// The `content` of the first `<meta name="description">` element of the HTML
/// document `source` that has one.
pub open spec fn html_meta_description(source: Seq<char>) -> Option<Seq<char>> {
    if css_selector_accepts(META_DESCRIPTION_SELECTOR@) {
        first_present(html_selected_attributes(source, META_DESCRIPTION_SELECTOR@, "content"@), 0)
    } else {
        None
    }
}

/// The first value present in `values`, if any.
pub fn first_present_value(values: &Vec<Option<String>>) -> (r: Option<String>)
    ensures
        match first_present(group_views(values@), 0) {
            Some(v) => r matches Some(s) && s@ == v,
            None => r is None,
        },
{
    let n = values.len();
    let mut i: usize = 0;
    while i < n
        invariant
            n == values@.len(),
            i <= n,
            first_present(group_views(values@), 0) == first_present(group_views(values@), i as int),
        decreases n - i,
    {
        if let Some(v) = &values[i] {
            return Some(v.clone());
        }
        i = i + 1;
    }
    None
}

/// The `content` of the document's first `<meta name="description">` that has one.
fn meta_description(soup: &HtmlDocument) -> (r: Option<String>)
    ensures
        match r {
            Some(d) => html_meta_description(soup.text()) == Some(d@),
            None => html_meta_description(soup.text()) is None,
        },
{
    match compile_selector(META_DESCRIPTION_SELECTOR) {
        Some(selector) => first_present_value(&selected_attributes(soup, &selector, "content")),
        None => None,
    }
}


// ---------------------------------------------------------------------------
// Patterns
// ---------------------------------------------------------------------------

/// A rank in a profile's meta description, such as `Challenger 1 1952LP`.
pub const RANK_TEXT_PATTERN: &'static str = r"(?i)\b(?P<tier>Challenger|Grandmaster|Master|Diamond|Emerald|Platinum|Gold|Silver|Bronze|Iron)\s*(?P<division>IV|III|II|I|[1-4])?\s+(?P<lp>[\d,]+)\s*LP\b";

/// The current rank in the page's embedded data.
pub const TIER_INFO_PATTERN: &'static str = r#""tier_info":\{"lp":(?P<lp>\d+),"tier":"(?P<tier>[A-Z_]+)","label":"(?P<label>[^"]+)"\}"#;

/// The division number in a tier label such as `GOLD 2`.
pub const DIVISION_LABEL_PATTERN: &'static str = r"\b[A-Z]+\s+([1-4])\b";

/// The level in a meta description, such as `Lv. 71`.
pub const DESCRIPTION_LEVEL_PATTERN: &'static str = r"\bLv\.\s*(\d+)\b";

/// The level shown in a `<span>` after the profile icon; it may span lines.
pub const PROFILE_LEVEL_PATTERN: &'static str = r"(?s)profile_icons/profileIcon\d+\.jpg.{0,1200}?<span[^>]*>(\d+)</span>";

/// The level in the page's embedded React data after the profile icon; it may span lines.
pub const REACT_LEVEL_PATTERN: &'static str = r#"(?s)profile_icons/profileIcon\d+\.jpg.{0,1600}?"children":(\d+)"#;

/// One season of rank history: the peak and the final rank; it may span lines.
pub const HISTORY_PATTERN: &'static str = r#"(?s)"season":"(?P<season>[^"]+)","rank_entries":\{"high_rank_info":\{"tier":"(?P<high_tier>[^"]*)","lp":(?P<high_lp>null|"[^"]*").*?\},"rank_info":\{"tier":"(?P<rank_tier>[^"]*)","lp":(?P<rank_lp>null|"[^"]*")"#;

/// A rank in the history data, such as `platinum 4`.
pub const HISTORY_RANK_PATTERN: &'static str = r"(?i)^(?P<tier>Challenger|Grandmaster|Master|Diamond|Emerald|Platinum|Gold|Silver|Bronze|Iron)\s*(?P<division>IV|III|II|I|[1-4])?";

/// The groups of the leftmost match of `pattern` in `text`, or `None` where
/// the pattern does not compile or does not match.
pub open spec fn first_match(pattern: Seq<char>, text: Seq<char>) -> Option<Seq<Option<Seq<char>>>> {
    if regex_accepts(pattern) {
        regex_captures(pattern, text)
    } else {
        None
    }
}

/// The groups of every match of `pattern` in `text`; none where the pattern
/// does not compile.
pub open spec fn every_match(pattern: Seq<char>, text: Seq<char>) -> Seq<Seq<Option<Seq<char>>>> {
    if regex_accepts(pattern) {
        regex_all_captures(pattern, text)
    } else {
        Seq::empty()
    }
}

/// The text of group `i`, or nothing where the group did not take part.
pub open spec fn group_text(g: Seq<Option<Seq<char>>>, i: int) -> Seq<char> {
    if 0 <= i < g.len() {
        match g[i] {
            Some(t) => t,
            None => Seq::empty(),
        }
    } else {
        Seq::empty()
    }
}

/// Whether group `i` took part in the match.
pub open spec fn has_group(g: Seq<Option<Seq<char>>>, i: int) -> bool {
    0 <= i < g.len() && g[i] is Some
}

fn first_match_exec(pattern: &str, text: &str) -> (r: Option<Vec<Option<String>>>)
    ensures
        match r {
            Some(g) => first_match(pattern@, text@) == Some(group_views(g@)),
            None => first_match(pattern@, text@) is None,
        },
{
    match compile(pattern) {
        Some(p) => captures(&p, text),
        None => None,
    }
}

fn every_match_exec(pattern: &str, text: &str) -> (r: Vec<Vec<Option<String>>>)
    ensures
        every_match(pattern@, text@) == r@.map_values(|g: Vec<Option<String>>| group_views(g@)),
{
    match compile(pattern) {
        Some(p) => all_captures(&p, text),
        None => {
            let r: Vec<Vec<Option<String>>> = Vec::new();
            assert(r@.map_values(|g: Vec<Option<String>>| group_views(g@)) =~= Seq::empty());
            r
        },
    }
}

fn group_text_exec(g: &Vec<Option<String>>, i: usize) -> (r: String)
    ensures
        r@ == group_text(group_views(g@), i as int),
{
    if i < g.len() {
        match &g[i] {
            Some(t) => t.clone(),
            None => String::new(),
        }
    } else {
        String::new()
    }
}

fn has_group_exec(g: &Vec<Option<String>>, i: usize) -> (b: bool)
    ensures
        b == has_group(group_views(g@), i as int),
{
    i < g.len() && g[i].is_some()
}


// ---------------------------------------------------------------------------
// Normalising ranks
// ---------------------------------------------------------------------------

/// The upper-case form of `c`: its ASCII capital (or itself) for an ASCII
/// character, the mapping of `char::to_uppercase` for any other.
pub open spec fn upper_case_of(c: char) -> Seq<char> {
    if (c as u32) < 128 {
        seq![upper_char(c)]
    } else {
        unicode_uppercase(c)
    }
}

/// A word with its first character in upper case and the rest in ASCII lower case.
pub open spec fn capitalized(w: Seq<char>) -> Seq<char> {
    if w.len() == 0 {
        Seq::empty()
    } else {
        upper_case_of(w[0]) + lower(w.drop_first())
    }
}

/// The capitalised words run together.
pub open spec fn capitalized_run(ws: Seq<Seq<char>>) -> Seq<char>
    decreases ws.len(),
{
    if ws.len() == 0 {
        Seq::empty()
    } else {
        capitalized_run(ws.drop_last()) + capitalized(ws.last())
    }
}

/// The capitalised words joined by single spaces.
pub open spec fn capitalized_joined(ws: Seq<Seq<char>>) -> Seq<char>
    decreases ws.len(),
{
    if ws.len() == 0 {
        Seq::empty()
    } else if ws.len() == 1 {
        capitalized(ws[0])
    } else {
        capitalized_joined(ws.drop_last()) + " "@ + capitalized(ws.last())
    }
}

/// A tier written as OP.GG may write it (`GRAND_MASTER`, `gold`), in the
/// spelling of [`crate::utils::TIER_ORDER`].
pub open spec fn normalized_tier(tier: Seq<char>) -> Seq<char> {
    let t = capitalized_run(words(swap_char(tier, '_', ' ')));
    if same_ignoring_case(t, "grandmaster"@) {
        "Grandmaster"@
    } else {
        t
    }
}

/// A division as a Roman numeral: `1` to `4` become `I` to `IV`, anything else
/// stays as its trimmed upper-case text.
pub open spec fn roman_division(division: Seq<char>) -> Seq<char> {
    let d = upper(trim(division));
    if d == "1"@ {
        "I"@
    } else if d == "2"@ {
        "II"@
    } else if d == "3"@ {
        "III"@
    } else if d == "4"@ {
        "IV"@
    } else {
        d
    }
}

/// Whether a normalised tier is one of the apex tiers, which have no division.
pub open spec fn is_apex_tier(tier: Seq<char>) -> bool {
    tier == "Challenger"@ || tier == "Grandmaster"@ || tier == "Master"@
}

/// League points without thousands separators or surrounding white space.
pub open spec fn normalized_lp(lp: Seq<char>) -> Seq<char> {
    trim(without_char(lp, ','))
}

/// The normalised tier, division and league points.
pub open spec fn normalized_rank(tier: Seq<char>, division: Seq<char>, lp: Seq<char>) -> (
    Seq<char>,
    Seq<char>,
    Seq<char>,
) {
    let t = normalized_tier(tier);
    (
        t,
        if is_apex_tier(t) {
            Seq::empty()
        } else {
            roman_division(division)
        },
        normalized_lp(lp),
    )
}

/// The words of `s`, each capitalised, joined by single spaces.
pub open spec fn title_case_text(s: Seq<char>) -> Seq<char> {
    capitalized_joined(words(s))
}

fn capitalize(w: &Vec<char>) -> (r: Vec<char>)
    ensures
        r@ == capitalized(w@),
{
    if w.len() == 0 {
        return Vec::new();
    }
    let first = chars_of(char_uppercase(w[0]).as_str());
    let rest = lower_chars(&slice_of(w, 1, w.len()));
    assert(w@.subrange(1, w@.len() as int) =~= w@.drop_first());
    concat(&first, &rest)
}

fn capitalize_words(ws: &Vec<Vec<char>>, separator: bool) -> (r: Vec<char>)
    ensures
        !separator ==> r@ == capitalized_run(views(ws@)),
        separator ==> r@ == capitalized_joined(views(ws@)),
{
    let n = ws.len();
    let mut out: Vec<char> = Vec::new();
    let mut i: usize = 0;
    let space: Vec<char> = vec![' '];
    assert(space@ =~= " "@) by {
        reveal_strlit(" ");
    }
    while i < n
        invariant
            n == ws@.len(),
            i <= n,
            space@ == " "@,
            !separator ==> out@ == capitalized_run(views(ws@).take(i as int)),
            separator ==> out@ == capitalized_joined(views(ws@).take(i as int)),
        decreases n - i,
    {
        let c = capitalize(&ws[i]);
        let ghost vs = views(ws@).take((i + 1) as int);
        assert(vs.drop_last() =~= views(ws@).take(i as int));
        assert(vs.last() == ws@[i as int]@);
        if separator && i > 0 {
            out = concat(&concat(&out, &space), &c);
        } else {
            if separator {
                assert(views(ws@).take(0) =~= Seq::<Seq<char>>::empty());
                assert(vs.len() == 1);
                assert(out@ =~= Seq::<char>::empty());
            }
            out = concat(&out, &c);
            assert(!separator ==> out@ == capitalized_run(vs));
            assert(separator ==> out@ =~= capitalized(vs[0]));
        }
        i = i + 1;
    }
    assert(views(ws@).take(n as int) =~= views(ws@));
    out
}

/// The words of `value`, each with an upper-case first character and ASCII
/// lower case after it, joined by single spaces.
pub fn title_case(value: &str) -> (r: String)
    ensures
        r@ == title_case_text(value@),
{
    string_of(&capitalize_words(&words_of(&chars_of(value)), true))
}

/// A rank for display: tier in the spelling of the tier list, division as a
/// Roman numeral (none for the apex tiers), league points without separators.
fn normalize(tier: &str, division: &str, lp: &str) -> (r: (String, String, String))
    ensures
        (r.0@, r.1@, r.2@) == normalized_rank(tier@, division@, lp@),
{
    let run = capitalize_words(&words_of(&swap_char_exec(&chars_of(tier), '_', ' ')), false);
    let t = if same_chars_ignoring_case(&run, &chars_of("grandmaster")) {
        chars_of("Grandmaster")
    } else {
        run
    };
    let d = upper_chars(&trim_chars(&chars_of(division)));
    let roman = if spells(&d, "1") {
        chars_of("I")
    } else if spells(&d, "2") {
        chars_of("II")
    } else if spells(&d, "3") {
        chars_of("III")
    } else if spells(&d, "4") {
        chars_of("IV")
    } else {
        d
    };
    let division_out = if spells(&t, "Challenger") || spells(&t, "Grandmaster") || spells(
        &t,
        "Master",
    ) {
        Vec::new()
    } else {
        roman
    };
    let points = trim_chars(&without_char_exec(&chars_of(lp), ','));
    (string_of(&t), string_of(&division_out), string_of(&points))
}


// ---------------------------------------------------------------------------
// What the page says
// ---------------------------------------------------------------------------

/// The division number in a tier label, or nothing.
pub open spec fn label_division(label: Seq<char>) -> Seq<char> {
    match first_match(DIVISION_LABEL_PATTERN@, label) {
        Some(g) => group_text(g, 1),
        None => Seq::empty(),
    }
}

/// The normalised rank written in `text`, if any.
pub open spec fn rank_in_text(text: Seq<char>) -> Option<(Seq<char>, Seq<char>, Seq<char>)> {
    match first_match(RANK_TEXT_PATTERN@, text) {
        Some(g) => if has_group(g, 1) && has_group(g, 3) {
            Some(normalized_rank(group_text(g, 1), group_text(g, 2), group_text(g, 3)))
        } else {
            None
        },
        None => None,
    }
}

/// League points from the history data: nothing for `null` or an empty value,
/// otherwise the value without quotes and thousands separators.
pub open spec fn cleaned_lp(value: Seq<char>) -> Seq<char> {
    let v = trim(value);
    if v == "null"@ || v.len() == 0 {
        Seq::empty()
    } else {
        without_char(strip(v, '"'), ',')
    }
}

/// A rank from the history data for display: `Tier Division NLP`, leaving out
/// an empty division or empty league points; text that is no known tier is
/// title-cased instead.
pub open spec fn history_rank(tier_text: Seq<char>, lp: Seq<char>) -> Seq<char> {
    let t = trim(tier_text);
    if t.len() == 0 {
        Seq::empty()
    } else {
        match first_match(HISTORY_RANK_PATTERN@, t) {
            None => title_case_text(t),
            Some(g) => {
                let n = normalized_rank(group_text(g, 1), group_text(g, 2), lp);
                n.0 + (if n.1.len() > 0 {
                    " "@ + n.1
                } else {
                    Seq::empty()
                }) + (if lp.len() > 0 {
                    " "@ + lp + "LP"@
                } else {
                    Seq::empty()
                })
            },
        }
    }
}

/// The peak and final rank of the first season entry, from index `i` on,
/// that has either; `Unranked` for both where none has.
pub open spec fn season_from(entries: Seq<Seq<Option<Seq<char>>>>, i: int) -> (Seq<char>, Seq<char>)
    decreases entries.len() - i,
{
    if i < 0 || i >= entries.len() {
        (unranked_text(), unranked_text())
    } else {
        let g = entries[i];
        let high = history_rank(group_text(g, 2), cleaned_lp(group_text(g, 3)));
        let finished = history_rank(group_text(g, 4), cleaned_lp(group_text(g, 5)));
        if high.len() > 0 || finished.len() > 0 {
            (or_default(high, finished), or_default(finished, high))
        } else {
            season_from(entries, i + 1)
        }
    }
}

/// Last season's peak and final rank in the decoded page data.
pub open spec fn last_season(payload: Seq<char>) -> (Seq<char>, Seq<char>) {
    season_from(every_match(HISTORY_PATTERN@, payload), 0)
}

/// The current tier, division and league points: from the meta description
/// where it holds a rank, otherwise from the last `tier_info` entry of the
/// page data, otherwise `Unranked`.
pub open spec fn current_rank(description: Option<Seq<char>>, payload: Seq<char>) -> (
    Seq<char>,
    Seq<char>,
    Seq<char>,
) {
    let unranked = (unranked_text(), Seq::<char>::empty(), Seq::<char>::empty());
    let first = match description {
        Some(d) => match rank_in_text(d) {
            Some(r) => r,
            None => unranked,
        },
        None => unranked,
    };
    if first.0 == unranked_text() {
        let entries = every_match(TIER_INFO_PATTERN@, payload);
        if entries.len() > 0 {
            let g = entries.last();
            normalized_rank(group_text(g, 2), label_division(group_text(g, 3)), group_text(g, 1))
        } else {
            first
        }
    } else {
        first
    }
}

/// The level: from `Lv. N` in the meta description, else from the `<span>`
/// after the profile icon, else from the React data after it, else nothing.
pub open spec fn level_in(description: Option<Seq<char>>, payload: Seq<char>) -> Seq<char> {
    let from_description = match description {
        Some(d) => first_match(DESCRIPTION_LEVEL_PATTERN@, d),
        None => None,
    };
    match from_description {
        Some(g) => group_text(g, 1),
        None => match first_match(PROFILE_LEVEL_PATTERN@, payload) {
            Some(g) => group_text(g, 1),
            None => match first_match(REACT_LEVEL_PATTERN@, payload) {
                Some(g) => group_text(g, 1),
                None => Seq::empty(),
            },
        },
    }
}

/// The page data: the page with HTML character references decoded and `\"` unescaped.
pub open spec fn decoded_payload(body: Seq<char>) -> Seq<char> {
    replace(html_entities_decoded(body), "\\\""@, "\""@)
}

/// The rank read from a profile page, or the message of why there is none.
pub open spec fn page_rank(body: Seq<char>) -> Result<RankModel, Seq<char>> {
    let payload = decoded_payload(body);
    if !contains(payload, "profile_icons/profileIcon"@) {
        Err("OP.GG profile payload was not found"@)
    } else {
        let description = html_meta_description(body);
        let rank = current_rank(description, payload);
        let season = last_season(payload);
        Ok(
            RankModel {
                tier: rank.0,
                division: rank.1,
                lp: rank.2,
                level: level_in(description, payload),
                reached_last_season: season.0,
                finished_last_season: season.1,
            },
        )
    }
}

/// `rank` with `Unranked` for an empty tier and for empty season history.
pub open spec fn with_rank_defaults(rank: RankModel) -> RankModel {
    RankModel {
        tier: or_default(rank.tier, unranked_text()),
        reached_last_season: or_default(rank.reached_last_season, unranked_text()),
        finished_last_season: or_default(rank.finished_last_season, unranked_text()),
        ..rank
    }
}

/// The rank reported when a lookup fails.
pub open spec fn error_rank() -> RankModel {
    RankModel {
        tier: error_text(),
        division: Seq::empty(),
        lp: Seq::empty(),
        level: Seq::empty(),
        reached_last_season: pending_text(),
        finished_last_season: pending_text(),
    }
}

/// The rank reported for a fetched page, or for a failed fetch.
pub open spec fn response_rank(body: Result<Seq<char>, Seq<char>>) -> RankModel {
    match body {
        Ok(b) => match page_rank(b) {
            Ok(rank) => with_rank_defaults(rank),
            Err(_) => error_rank(),
        },
        Err(_) => error_rank(),
    }
}

/// The game name and tagline of a Riot ID `Name#TAG`, trimmed; the tagline is
/// empty where there is no `#`.
pub open spec fn riot_id_parts(summoner_name: Seq<char>) -> (Seq<char>, Seq<char>) {
    match last_index_of(summoner_name, '#') {
        Some(i) => (trim(summoner_name.take(i)), trim(summoner_name.skip(i + 1))),
        None => (trim(summoner_name), Seq::empty()),
    }
}

/// The OP.GG profile address of a summoner in a region.
pub open spec fn opgg_url(region: Seq<char>, summoner_name: Seq<char>) -> Seq<char> {
    let (game_name, tagline) = riot_id_parts(summoner_name);
    "https://op.gg/lol/summoners/"@ + region + "/"@ + url_encoded(game_name) + if tagline.len()
        > 0 {
        "-"@ + url_encoded(tagline)
    } else {
        Seq::empty()
    }
}

/// Something that can look up the rank of an account, such as an OP.GG
/// client, or a stand-in in tests.
pub trait RankProvider: Send + Sync {
    fn fetch_rank(&self, account: &Account) -> RankInfo;
}

/// Reads ranks out of OP.GG profile pages.
#[derive(Clone, Copy, Debug, Default)]
pub struct RankFetcher {}

impl RankFetcher {
    pub fn new() -> Self {
        RankFetcher {  }
    }

    /// The rank for a fetched page (`Ok` with its text) or a failed fetch
    /// (`Err` with the reason): the page's rank with defaults filled in, or
    /// the error rank.
    pub fn rank_from_response(&self, body: Result<String, String>) -> (r: RankInfo)
        ensures
            r@ == response_rank(
                match body {
                    Ok(b) => Ok(b@),
                    Err(e) => Err(e@),
                },
            ),
    {
        match body {
            Ok(text) => match self.rank_from_page(text.as_str()) {
                Ok(rank) => self.with_defaults(rank),
                Err(_) => RankInfo::error(),
            },
            Err(_) => RankInfo::error(),
        }
    }

    /// The OP.GG profile address of a summoner in a region.
    pub fn build_opgg_url(&self, region: &str, summoner_name: &str) -> (r: String)
        ensures
            r@ == opgg_url(region@, summoner_name@),
    {
        let (game_name, tagline) = Self::split_riot_id(summoner_name);
        let mut formatted = chars_of(url_encode(game_name.as_str()).as_str());
        if !tagline.as_str().is_empty() {
            formatted.push('-');
            formatted = concat(&formatted, &chars_of(url_encode(tagline.as_str()).as_str()));
        }
        let prefix = concat(
            &concat(&chars_of("https://op.gg/lol/summoners/"), &chars_of(region)),
            &chars_of("/"),
        );
        let r = concat(&prefix, &formatted);
        proof {
            let (g, t) = riot_id_parts(summoner_name@);
            if t.len() > 0 {
                assert(formatted@ =~= url_encoded(g) + "-"@ + url_encoded(t)) by {
                    reveal_strlit("-");
                }
                assert(r@ =~= opgg_url(region@, summoner_name@));
            } else {
                assert(r@ =~= opgg_url(region@, summoner_name@));
            }
        }
        string_of(&r)
    }

    /// The game name and tagline of a Riot ID `Name#TAG`, both trimmed; the
    /// tagline is empty where there is no `#`.
    pub fn split_riot_id(summoner_name: &str) -> (r: (String, String))
        ensures
            (r.0@, r.1@) == riot_id_parts(summoner_name@),
    {
        let v = chars_of(summoner_name);
        let n = v.len();
        match last_index_of_exec(&v, '#') {
            Some(i) => {
                let game = trim_chars(&slice_of(&v, 0, i));
                let tag = trim_chars(&slice_of(&v, i + 1, n));
                assert(v@.subrange(0, i as int) =~= v@.take(i as int));
                assert(v@.subrange(i + 1, v@.len() as int) =~= v@.skip(i + 1));
                (string_of(&game), string_of(&tag))
            },
            None => (string_of(&trim_chars(&v)), String::new()),
        }
    }

    /// The normalised tier, division and league points.
    pub fn normalize_rank(&self, tier: &str, division: &str, lp: &str) -> (r: (
        String,
        String,
        String,
    ))
        ensures
            (r.0@, r.1@, r.2@) == normalized_rank(tier@, division@, lp@),
    {
        normalize(tier, division, lp)
    }

    /// The division number in a tier label such as `GOLD 2`, or nothing.
    pub fn division_from_label(&self, label: &str) -> (r: String)
        ensures
            r@ == label_division(label@),
    {
        match first_match_exec(DIVISION_LABEL_PATTERN, label) {
            Some(g) => group_text_exec(&g, 1),
            None => String::new(),
        }
    }

    /// The normalised rank written in a text such as a meta description.
    pub fn parse_rank_text(&self, text: &str) -> (r: Option<(String, String, String)>)
        ensures
            match r {
                Some(t) => rank_in_text(text@) == Some((t.0@, t.1@, t.2@)),
                None => rank_in_text(text@) is None,
            },
    {
        let g = match first_match_exec(RANK_TEXT_PATTERN, text) {
            Some(g) => g,
            None => return None,
        };
        if !has_group_exec(&g, 1) || !has_group_exec(&g, 3) {
            return None;
        }
        let tier = group_text_exec(&g, 1);
        let division = group_text_exec(&g, 2);
        let lp = group_text_exec(&g, 3);
        Some(normalize(tier.as_str(), division.as_str(), lp.as_str()))
    }

    /// League points from the history data: nothing for `null` or an empty
    /// value, otherwise the value without quotes and thousands separators.
    pub fn clean_lp_value(&self, value: &str) -> (r: String)
        ensures
            r@ == cleaned_lp(value@),
    {
        let v = trim_chars(&chars_of(value));
        if spells(&v, "null") || v.len() == 0 {
            String::new()
        } else {
            string_of(&without_char_exec(&strip_chars(&v, '"'), ','))
        }
    }

    /// A rank from the history data for display, such as `Platinum IV 25LP`.
    pub fn format_history_rank(&self, tier_text: &str, lp: &str) -> (r: String)
        ensures
            r@ == history_rank(tier_text@, lp@),
    {
        let t = string_of(&trim_chars(&chars_of(tier_text)));
        if t.as_str().is_empty() {
            return String::new();
        }
        let g = match first_match_exec(HISTORY_RANK_PATTERN, t.as_str()) {
            Some(g) => g,
            None => return title_case(t.as_str()),
        };
        let tier_group = group_text_exec(&g, 1);
        let division_group = group_text_exec(&g, 2);
        let (tier, division, _) = normalize(tier_group.as_str(), division_group.as_str(), lp);
        let mut out = chars_of(tier.as_str());
        let ghost first = out@;
        if !division.as_str().is_empty() {
            out.push(' ');
            out = concat(&out, &chars_of(division.as_str()));
        }
        let ghost second = out@;
        if !lp.is_empty() {
            out.push(' ');
            out = concat(&out, &chars_of(lp));
            out = concat(&out, &chars_of("LP"));
        }
        proof {
            reveal_strlit(" ");
            let n = normalized_rank(group_text(group_views(g@), 1), group_text(group_views(g@), 2), lp@);
            let d_part = if n.1.len() > 0 { " "@ + n.1 } else { Seq::empty() };
            let l_part = if lp@.len() > 0 { " "@ + lp@ + "LP"@ } else { Seq::empty() };
            assert(second =~= first + d_part);
            assert(out@ =~= second + l_part);
            assert(out@ =~= n.0 + d_part + l_part);
        }
        string_of(&out)
    }

    /// Last season's peak and final rank in the decoded page data; where only
    /// one of them is known it stands for both, and where neither is known in
    /// any season entry, both are `Unranked`.
    pub fn parse_last_season_from_opgg(&self, decoded_payload: &str) -> (r: (String, String))
        ensures
            (r.0@, r.1@) == last_season(decoded_payload@),
    {
        let entries = every_match_exec(HISTORY_PATTERN, decoded_payload);
        self.season_from_captures(&entries)
    }

    /// The peak and final rank of the first season entry that has either,
    /// from the capture groups of the history pattern's matches; `Unranked`
    /// for both where no entry has one.
    pub fn season_from_captures(&self, entries: &Vec<Vec<Option<String>>>) -> (r: (String, String))
        ensures
            (r.0@, r.1@) == season_from(entries@.map_values(|g: Vec<Option<String>>| group_views(g@)), 0),
    {
        let ghost es = entries@.map_values(|g: Vec<Option<String>>| group_views(g@));
        let n = entries.len();
        let mut i: usize = 0;
        while i < n
            invariant
                n == entries@.len(),
                i <= n,
                es == entries@.map_values(|g: Vec<Option<String>>| group_views(g@)),
                season_from(es, 0) == season_from(es, i as int),
            decreases n - i,
        {
            let g = &entries[i];
            assert(es[i as int] == group_views(g@));
            let high_tier = group_text_exec(g, 2);
            let high_lp = group_text_exec(g, 3);
            let rank_tier = group_text_exec(g, 4);
            let rank_lp = group_text_exec(g, 5);
            let high = self.format_history_rank(high_tier.as_str(), self.clean_lp_value(high_lp.as_str()).as_str());
            let finished = self.format_history_rank(rank_tier.as_str(), self.clean_lp_value(rank_lp.as_str()).as_str());
            if !high.as_str().is_empty() || !finished.as_str().is_empty() {
                let first = if high.as_str().is_empty() {
                    finished.clone()
                } else {
                    high.clone()
                };
                let second = if finished.as_str().is_empty() {
                    high
                } else {
                    finished
                };
                return (first, second);
            }
            i = i + 1;
        }
        ("Unranked".to_owned(), "Unranked".to_owned())
    }

    /// The current tier, division and league points (the other fields empty):
    /// from the meta description where it holds a rank, otherwise from the
    /// last `tier_info` entry of the page data, otherwise `Unranked`.
    pub fn parse_current_rank_from_opgg(&self, soup: &HtmlDocument, decoded_payload: &str) -> (r: RankInfo)
        ensures
            (r.tier@, r.division@, r.lp@) == current_rank(html_meta_description(soup.text()), decoded_payload@),
            r.level@.len() == 0,
            r.reached_last_season@.len() == 0,
            r.finished_last_season@.len() == 0,
    {
        let mut tier = "Unranked".to_owned();
        let mut division = String::new();
        let mut lp = String::new();
        if let Some(description) = meta_description(soup) {
            if let Some((t, d, l)) = self.parse_rank_text(description.as_str()) {
                tier = t;
                division = d;
                lp = l;
            }
        }
        if spells(&chars_of(tier.as_str()), "Unranked") {
            let entries = every_match_exec(TIER_INFO_PATTERN, decoded_payload);
            if entries.len() > 0 {
                let g = &entries[entries.len() - 1];
                let label = group_text_exec(g, 3);
                let tier_group = group_text_exec(g, 2);
                let lp_group = group_text_exec(g, 1);
                let label_div = self.division_from_label(label.as_str());
                let (t, d, l) = normalize(tier_group.as_str(), label_div.as_str(), lp_group.as_str());
                tier = t;
                division = d;
                lp = l;
            }
        }
        RankInfo {
            tier,
            division,
            lp,
            level: String::new(),
            reached_last_season: String::new(),
            finished_last_season: String::new(),
        }
    }

    /// The level: from `Lv. N` in the meta description, else from the
    /// `<span>` after the profile icon, else from the React data after it,
    /// else nothing.
    pub fn parse_level_from_opgg(&self, soup: &HtmlDocument, decoded_payload: &str) -> (r: String)
        ensures
            r@ == level_in(html_meta_description(soup.text()), decoded_payload@),
    {
        if let Some(description) = meta_description(soup) {
            if let Some(g) = first_match_exec(DESCRIPTION_LEVEL_PATTERN, description.as_str()) {
                return group_text_exec(&g, 1);
            }
        }
        if let Some(g) = first_match_exec(PROFILE_LEVEL_PATTERN, decoded_payload) {
            return group_text_exec(&g, 1);
        }
        match first_match_exec(REACT_LEVEL_PATTERN, decoded_payload) {
            Some(g) => group_text_exec(&g, 1),
            None => String::new(),
        }
    }

    /// The rank read from a profile page, or why there is none: the page data
    /// must show a profile icon.
    pub fn rank_from_page(&self, body: &str) -> (r: Result<RankInfo, String>)
        ensures
            match r {
                Ok(rank) => page_rank(body@) == Ok::<RankModel, Seq<char>>(rank@),
                Err(e) => page_rank(body@) == Err::<RankModel, Seq<char>>(e@),
            },
    {
        let decoded = decode_html_entities(body);
        let payload = string_of(&replace_chars(&chars_of(decoded.as_str()), &chars_of("\\\""), &chars_of("\"")));
        if !contains_chars(&chars_of(payload.as_str()), &chars_of("profile_icons/profileIcon")) {
            return Err("OP.GG profile payload was not found".to_owned());
        }
        let soup = HtmlDocument::parse_document(body);
        let mut rank = self.parse_current_rank_from_opgg(&soup, payload.as_str());
        rank.level = self.parse_level_from_opgg(&soup, payload.as_str());
        let (reached, finished) = self.parse_last_season_from_opgg(payload.as_str());
        rank.reached_last_season = reached;
        rank.finished_last_season = finished;
        Ok(rank)
    }

    /// `rank` with `Unranked` for an empty tier and for empty season history.
    pub fn with_defaults(&self, rank: RankInfo) -> (r: RankInfo)
        ensures
            r@ == with_rank_defaults(rank@),
    {
        let tier = if rank.tier.as_str().is_empty() {
            "Unranked".to_owned()
        } else {
            rank.tier
        };
        let reached_last_season = if rank.reached_last_season.as_str().is_empty() {
            "Unranked".to_owned()
        } else {
            rank.reached_last_season
        };
        let finished_last_season = if rank.finished_last_season.as_str().is_empty() {
            "Unranked".to_owned()
        } else {
            rank.finished_last_season
        };
        RankInfo {
            tier,
            division: rank.division,
            lp: rank.lp,
            level: rank.level,
            reached_last_season,
            finished_last_season,
        }
    }
}

/// Whether `s` holds no `c`.
pub open spec fn free_of(s: Seq<char>, c: char) -> bool {
    forall|i: int| 0 <= i < s.len() ==> s[i] != c
}

proof fn lemma_without_char_free(s: Seq<char>, c: char)
    ensures
        free_of(without_char(s, c), c),
    decreases s.len(),
{
    if s.len() > 0 {
        lemma_without_char_free(s.drop_last(), c);
    }
}

proof fn lemma_trim_keeps_free(s: Seq<char>, c: char)
    requires
        free_of(s, c),
    ensures
        free_of(crate::text::trim_start(s), c),
        free_of(crate::text::trim_end(s), c),
    decreases s.len(),
{
    if s.len() > 0 {
        assert(free_of(s.drop_first(), c)) by {
            assert forall|i: int| 0 <= i < s.drop_first().len() implies s.drop_first()[i] != c by {
                assert(s.drop_first()[i] == s[i + 1]);
            }
        }
        assert(free_of(s.drop_last(), c)) by {
            assert forall|i: int| 0 <= i < s.drop_last().len() implies s.drop_last()[i] != c by {
                assert(s.drop_last()[i] == s[i]);
            }
        }
        lemma_trim_keeps_free(s.drop_first(), c);
        lemma_trim_keeps_free(s.drop_last(), c);
    }
}

/// A normalised rank is written for display: an apex tier (Challenger,
/// Grandmaster, Master) has no division, whatever division was given; any
/// other tier writes the divisions 1 to 4 as I to IV; and the league points
/// hold no thousands separator.
pub proof fn lemma_normalized_rank_for_display(tier: Seq<char>, division: Seq<char>, lp: Seq<char>)
    ensures
        ({
            let n = normalized_rank(tier, division, lp);
            let apex = n.0 == "Challenger"@ || n.0 == "Grandmaster"@ || n.0 == "Master"@;
            let d = upper(trim(division));
            &&& apex ==> n.1.len() == 0
            &&& !apex && d == "1"@ ==> n.1 == "I"@
            &&& !apex && d == "2"@ ==> n.1 == "II"@
            &&& !apex && d == "3"@ ==> n.1 == "III"@
            &&& !apex && d == "4"@ ==> n.1 == "IV"@
            &&& free_of(n.2, ',')
        }),
{
    reveal_strlit("1");
    reveal_strlit("2");
    reveal_strlit("3");
    reveal_strlit("4");
    assert("1"@[0] == '1' && "2"@[0] == '2' && "3"@[0] == '3' && "4"@[0] == '4');
    assert("1"@ != "2"@ && "1"@ != "3"@ && "1"@ != "4"@ && "2"@ != "3"@ && "2"@ != "4"@ && "3"@ != "4"@);
    lemma_without_char_free(lp, ',');
    lemma_trim_keeps_free(without_char(lp, ','), ',');
    lemma_trim_keeps_free(crate::text::trim_start(without_char(lp, ',')), ',');
}

/// Whether `s` is made of digits and commas.
pub open spec fn digits_and_commas(s: Seq<char>) -> bool {
    forall|k: int| 0 <= k < s.len() ==> ('0' <= #[trigger] s[k] <= '9' || s[k] == ',')
}

proof fn lemma_without_char_filters(s: Seq<char>, c: char)
    ensures
        without_char(s, c) == s.filter(|x: char| x != c),
        digits_and_commas(s) ==> digits_and_commas(without_char(s, c)),
    decreases s.len(),
{
    reveal(Seq::filter);
    if s.len() > 0 {
        lemma_without_char_filters(s.drop_last(), c);
        if digits_and_commas(s) {
            assert(digits_and_commas(s.drop_last())) by {
                assert forall|k: int| 0 <= k < s.drop_last().len() implies ('0' <= #[trigger] s.drop_last()[k] <= '9'
                    || s.drop_last()[k] == ',') by {
                    assert(s.drop_last()[k] == s[k]);
                }
            }
            assert(s.last() == s[s.len() - 1]);
        }
    }
}

/// League points written with digits and thousands separators keep every
/// digit, in order, and lose the separators.
pub proof fn lemma_lp_keeps_its_digits(tier: Seq<char>, division: Seq<char>, lp: Seq<char>)
    requires
        digits_and_commas(lp),
    ensures
        normalized_rank(tier, division, lp).2 == lp.filter(|c: char| c != ','),
{
    lemma_without_char_filters(lp, ',');
    let w = without_char(lp, ',');
    assert(w.len() > 0 ==> !crate::text::is_space(w[0]) && !crate::text::is_space(w.last())) by {
        if w.len() > 0 {
            assert('0' <= w[0] <= '9' || w[0] == ',');
            assert('0' <= w[w.len() - 1] <= '9' || w[w.len() - 1] == ',');
        }
    }
    assert(crate::text::trim_start(w) == w);
    assert(crate::text::trim_end(w) == w);
}

/// A recognised rank from the history data ends with its league points, as
/// ` 25LP`, when there are any, and begins with the normalised tier.
pub proof fn lemma_history_rank_shows_lp(tier_text: Seq<char>, lp: Seq<char>)
    requires
        trim(tier_text).len() > 0,
        first_match(HISTORY_RANK_PATTERN@, trim(tier_text)) is Some,
    ensures
        ({
            let h = history_rank(tier_text, lp);
            let g = first_match(HISTORY_RANK_PATTERN@, trim(tier_text))->0;
            let t = normalized_rank(group_text(g, 1), group_text(g, 2), lp).0;
            &&& h.len() >= t.len()
            &&& h.subrange(0, t.len() as int) == t
            &&& lp.len() > 0 ==> h.len() >= lp.len() + 3 && h.subrange(h.len() - lp.len() - 3, h.len() as int) == " "@ + lp + "LP"@
        }),
{
    reveal_strlit(" ");
    reveal_strlit("LP");
    let h = history_rank(tier_text, lp);
    let g = first_match(HISTORY_RANK_PATTERN@, trim(tier_text))->0;
    let n = normalized_rank(group_text(g, 1), group_text(g, 2), lp);
    let d_part = if n.1.len() > 0 { " "@ + n.1 } else { Seq::empty() };
    let l_part = if lp.len() > 0 { " "@ + lp + "LP"@ } else { Seq::empty() };
    assert(h == n.0 + d_part + l_part);
    assert(h.subrange(0, n.0.len() as int) =~= n.0);
    if lp.len() > 0 {
        assert(h.subrange(h.len() - lp.len() - 3, h.len() as int) =~= " "@ + lp + "LP"@);
    }
}

/// The peak rank of a season entry's capture groups.
pub open spec fn season_peak(g: Seq<Option<Seq<char>>>) -> Seq<char> {
    history_rank(group_text(g, 2), cleaned_lp(group_text(g, 3)))
}

/// The final rank of a season entry's capture groups.
pub open spec fn season_final(g: Seq<Option<Seq<char>>>) -> Seq<char> {
    history_rank(group_text(g, 4), cleaned_lp(group_text(g, 5)))
}

/// Whether a season entry has a peak or a final rank.
pub open spec fn season_ranked(g: Seq<Option<Seq<char>>>) -> bool {
    season_peak(g).len() > 0 || season_final(g).len() > 0
}

proof fn lemma_season_from_skips_unranked(entries: Seq<Seq<Option<Seq<char>>>>, i: int, k: int)
    requires
        0 <= i <= k <= entries.len(),
        forall|j: int| i <= j < k ==> !season_ranked(#[trigger] entries[j]),
    ensures
        season_from(entries, i) == season_from(entries, k),
    decreases k - i,
{
    if i < k {
        lemma_season_from_skips_unranked(entries, i + 1, k);
    }
}

/// The season shown is the first entry, in page order, that has a peak or a
/// final rank, whatever later entries hold: its peak (its final rank where
/// the peak is missing) and its final rank (its peak where the final rank is
/// missing). Where no entry has either, both read `Unranked`.
pub proof fn lemma_first_ranked_season_is_shown(entries: Seq<Seq<Option<Seq<char>>>>, k: int)
    requires
        0 <= k <= entries.len(),
        forall|j: int| 0 <= j < k ==> !season_ranked(#[trigger] entries[j]),
    ensures
        k < entries.len() && season_ranked(entries[k]) ==> season_from(entries, 0) == (
            if season_peak(entries[k]).len() > 0 { season_peak(entries[k]) } else { season_final(entries[k]) },
            if season_final(entries[k]).len() > 0 { season_final(entries[k]) } else { season_peak(entries[k]) },
        ),
        k == entries.len() ==> season_from(entries, 0) == ("Unranked"@, "Unranked"@),
{
    lemma_season_from_skips_unranked(entries, 0, k);
}

/// A word written with an ASCII capital and then ASCII small letters.
pub open spec fn capital_word(w: Seq<char>) -> bool {
    &&& w.len() > 0
    &&& 'A' <= w[0] <= 'Z'
    &&& forall|k: int| 1 <= k < w.len() ==> 'a' <= #[trigger] w[k] <= 'z'
}

proof fn lemma_words_of_one_word(s: Seq<char>)
    requires
        s.len() > 0,
        forall|k: int| 0 <= k < s.len() ==> !crate::text::is_space(#[trigger] s[k]),
    ensures
        words(s) == seq![s],
    decreases s.len(),
{
    if s.len() == 1 {
        assert(s.drop_last() =~= Seq::<char>::empty());
        assert(words(Seq::<char>::empty()) =~= Seq::<Seq<char>>::empty());
        assert(seq![s.last()] =~= s);
        assert(words(s) =~= seq![s]);
    } else {
        let p = s.drop_last();
        assert forall|k: int| 0 <= k < p.len() implies !crate::text::is_space(#[trigger] p[k]) by {
            assert(p[k] == s[k]);
        }
        lemma_words_of_one_word(p);
        assert(!crate::text::is_space(s[s.len() - 2]));
        assert(!crate::text::is_space(s.last()));
        assert(p.push(s.last()) =~= s);
        assert(words(s) =~~= seq![s]);
    }
}

proof fn lemma_capital_word_spelling(t: Seq<char>, w: Seq<char>)
    requires
        capital_word(w),
        lower(t) == lower(w),
    ensures
        normalized_tier(t) == (if same_ignoring_case(w, "grandmaster"@) { "Grandmaster"@ } else { w }),
{
    assert(t.len() == lower(t).len() && w.len() == lower(w).len());
    assert forall|k: int| 0 <= k < t.len() implies crate::text::lower_char(#[trigger] t[k]) == crate::text::lower_char(w[k]) by {
        assert(lower(t)[k] == lower(w)[k]);
        assert(lower(t)[k] == crate::text::lower_char(t[k]));
        assert(lower(w)[k] == crate::text::lower_char(w[k]));
    }
    assert forall|k: int| 0 <= k < t.len() implies ('a' <= #[trigger] t[k] <= 'z' || 'A' <= t[k] <= 'Z') by {
        assert(crate::text::lower_char(t[k]) == crate::text::lower_char(w[k]));
        if k > 0 {
            assert('a' <= w[k] <= 'z');
        }
    }
    assert(swap_char(t, '_', ' ') =~= t);
    assert forall|k: int| 0 <= k < t.len() implies !crate::text::is_space(#[trigger] t[k]) by {
        assert('a' <= t[k] <= 'z' || 'A' <= t[k] <= 'Z');
    }
    lemma_words_of_one_word(t);
    assert(seq![t].drop_last() =~= Seq::<Seq<char>>::empty());
    assert(seq![t].last() == t);
    assert(capitalized_run(Seq::<Seq<char>>::empty()) == Seq::<char>::empty());
    assert(capitalized_run(seq![t]) =~= capitalized(t));
    assert(crate::text::lower_char(t[0]) == crate::text::lower_char(w[0]));
    assert(upper_char(t[0]) == w[0]);
    assert(upper_case_of(t[0]) =~= seq![w[0]]);
    assert(lower(t.drop_first()) =~= w.drop_first()) by {
        assert forall|k: int| 0 <= k < w.drop_first().len() implies lower(t.drop_first())[k] == w.drop_first()[k] by {
            assert(t.drop_first()[k] == t[k + 1]);
            assert(crate::text::lower_char(t[k + 1]) == crate::text::lower_char(w[k + 1]));
            assert('a' <= w[k + 1] <= 'z');
        }
    }
    assert(capitalized(t) =~= w);
}

/// A tier written as one of the tiers of [`crate::utils::TIER_ORDER`] from
/// Challenger to Iron, in any ASCII case, is normalised to the spelling of
/// that list.
pub proof fn lemma_tier_spelling(t: Seq<char>, i: int)
    requires
        0 <= i < 10,
        same_ignoring_case(t, crate::utils::TIER_ORDER@[i]@),
    ensures
        normalized_tier(t) == crate::utils::TIER_ORDER@[i]@,
{
    reveal_strlit("Challenger");
    reveal_strlit("Grandmaster");
    reveal_strlit("Master");
    reveal_strlit("Diamond");
    reveal_strlit("Emerald");
    reveal_strlit("Platinum");
    reveal_strlit("Gold");
    reveal_strlit("Silver");
    reveal_strlit("Bronze");
    reveal_strlit("Iron");
    assert(crate::utils::TIER_ORDER@[0]@ == "Challenger"@);
    assert forall|k: int| 1 <= k < "Challenger"@.len() implies 'a' <= #[trigger] "Challenger"@[k] <= 'z' by {
        assert(k == 1 || k == 2 || k == 3 || k == 4 || k == 5 || k == 6 || k == 7 || k == 8 || k == 9);
    }
    assert(crate::utils::TIER_ORDER@[1]@ == "Grandmaster"@);
    assert forall|k: int| 1 <= k < "Grandmaster"@.len() implies 'a' <= #[trigger] "Grandmaster"@[k] <= 'z' by {
        assert(k == 1 || k == 2 || k == 3 || k == 4 || k == 5 || k == 6 || k == 7 || k == 8 || k == 9 || k == 10);
    }
    assert(crate::utils::TIER_ORDER@[2]@ == "Master"@);
    assert forall|k: int| 1 <= k < "Master"@.len() implies 'a' <= #[trigger] "Master"@[k] <= 'z' by {
        assert(k == 1 || k == 2 || k == 3 || k == 4 || k == 5);
    }
    assert(crate::utils::TIER_ORDER@[3]@ == "Diamond"@);
    assert forall|k: int| 1 <= k < "Diamond"@.len() implies 'a' <= #[trigger] "Diamond"@[k] <= 'z' by {
        assert(k == 1 || k == 2 || k == 3 || k == 4 || k == 5 || k == 6);
    }
    assert(crate::utils::TIER_ORDER@[4]@ == "Emerald"@);
    assert forall|k: int| 1 <= k < "Emerald"@.len() implies 'a' <= #[trigger] "Emerald"@[k] <= 'z' by {
        assert(k == 1 || k == 2 || k == 3 || k == 4 || k == 5 || k == 6);
    }
    assert(crate::utils::TIER_ORDER@[5]@ == "Platinum"@);
    assert forall|k: int| 1 <= k < "Platinum"@.len() implies 'a' <= #[trigger] "Platinum"@[k] <= 'z' by {
        assert(k == 1 || k == 2 || k == 3 || k == 4 || k == 5 || k == 6 || k == 7);
    }
    assert(crate::utils::TIER_ORDER@[6]@ == "Gold"@);
    assert forall|k: int| 1 <= k < "Gold"@.len() implies 'a' <= #[trigger] "Gold"@[k] <= 'z' by {
        assert(k == 1 || k == 2 || k == 3);
    }
    assert(crate::utils::TIER_ORDER@[7]@ == "Silver"@);
    assert forall|k: int| 1 <= k < "Silver"@.len() implies 'a' <= #[trigger] "Silver"@[k] <= 'z' by {
        assert(k == 1 || k == 2 || k == 3 || k == 4 || k == 5);
    }
    assert(crate::utils::TIER_ORDER@[8]@ == "Bronze"@);
    assert forall|k: int| 1 <= k < "Bronze"@.len() implies 'a' <= #[trigger] "Bronze"@[k] <= 'z' by {
        assert(k == 1 || k == 2 || k == 3 || k == 4 || k == 5);
    }
    assert(crate::utils::TIER_ORDER@[9]@ == "Iron"@);
    assert forall|k: int| 1 <= k < "Iron"@.len() implies 'a' <= #[trigger] "Iron"@[k] <= 'z' by {
        assert(k == 1 || k == 2 || k == 3);
    }
    reveal_strlit("grandmaster");
    assert(lower("grandmaster"@) =~= lower("Grandmaster"@));
    crate::utils::lemma_tier_index_is_tier_order_position(crate::utils::TIER_ORDER@[i]@);
    crate::utils::lemma_tier_index_is_tier_order_position("Grandmaster"@);
    let w = crate::utils::TIER_ORDER@[i]@;
    assert(capital_word(w));
    lemma_capital_word_spelling(t, w);
    if i != 1 {
        assert(!same_ignoring_case(w, "grandmaster"@)) by {
            if same_ignoring_case(w, "grandmaster"@) {
                assert(same_ignoring_case("Grandmaster"@, crate::utils::TIER_ORDER@[i]@));
            }
        }
    }
}

} // verus!
