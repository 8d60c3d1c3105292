//! URL rules: which browser a rule sends a URL to, and the rule saved for a
//! URL's domain.
use crate::text::{
    chars_of, contains_chars, contains_seq, opt_view, string_views, to_lowercase,
    unicode_lowercase,
};
use vstd::prelude::*;

verus! {

/// `regex::Regex`, carried opaquely.
#[verifier::external_type_specification]
#[verifier::external_body]
pub struct ExRegex(regex::Regex);

/// `regex::Error`, carried opaquely.
#[verifier::external_type_specification]
#[verifier::external_body]
pub struct ExRegexError(regex::Error);

/// `url::Url`, carried opaquely.
#[verifier::external_type_specification]
#[verifier::external_body]
pub struct ExUrl(url::Url);

/// `url::ParseError`, carried opaquely.
#[verifier::external_type_specification]
#[verifier::external_body]
pub struct ExUrlParseError(url::ParseError);

/// Whether `regex::Regex::new` accepts the pattern.
pub uninterp spec fn regex_compiles(pattern: Seq<char>) -> bool;

/// What `is_match` of the regex compiled from `pattern` returns for `haystack`.
pub uninterp spec fn regex_matches(pattern: Seq<char>, haystack: Seq<char>) -> bool;

/// Whether `url::Url::parse` accepts the text.
pub uninterp spec fn url_parses(input: Seq<char>) -> bool;

/// What `domain` of the URL parsed from `input` returns.
pub uninterp spec fn url_domain(input: Seq<char>) -> Option<Seq<char>>;

/// A regular expression together with the pattern it was compiled from.
pub struct CompiledPattern {
    regex: regex::Regex,
    pattern: Ghost<Seq<char>>,
}

impl View for CompiledPattern {
    type V = Seq<char>;

    closed spec fn view(&self) -> Seq<char> {
        self.pattern@
    }
}

/// `regex::Regex::new`: succeeds exactly when the pattern compiles; the
/// compiled value remembers its pattern.
#[verifier::external_body]
fn compile_regex(pattern: &str) -> (r: Result<CompiledPattern, regex::Error>)
    ensures
        r is Ok <==> regex_compiles(pattern@),
        r matches Ok(c) ==> c@ == pattern@,
{
    match regex::Regex::new(pattern) {
        Ok(regex) => Ok(CompiledPattern { regex, pattern: Ghost(pattern@) }),
        Err(e) => Err(e),
    }
}

/// `regex::Regex::is_match`: whether the regex matches somewhere in the
/// haystack; named `regex_matches` of the pattern and the haystack.
#[verifier::external_body]
fn regex_is_match(compiled: &CompiledPattern, haystack: &str) -> (r: bool)
    ensures
        r == regex_matches(compiled@, haystack@),
{
    compiled.regex.is_match(haystack)
}

/// A URL together with the text it was parsed from.
pub struct ParsedUrl {
    url: url::Url,
    source: Ghost<Seq<char>>,
}

impl View for ParsedUrl {
    type V = Seq<char>;

    closed spec fn view(&self) -> Seq<char> {
        self.source@
    }
}

/// `url::Url::parse`: succeeds exactly when the text parses; the parsed
/// value remembers its text.
#[verifier::external_body]
fn parse_url(input: &str) -> (r: Result<ParsedUrl, url::ParseError>)
    ensures
        r is Ok <==> url_parses(input@),
        r matches Ok(u) ==> u@ == input@,
{
    match url::Url::parse(input) {
        Ok(url) => Ok(ParsedUrl { url, source: Ghost(input@) }),
        Err(e) => Err(e),
    }
}

/// `url::Url::domain`: the host when it is a domain name; named
/// `url_domain` of the parsed text.
#[verifier::external_body]
fn domain_of(u: &ParsedUrl) -> (r: Option<String>)
    ensures
        opt_view(r) == url_domain(u@),
{
    u.url.domain().map(|d| d.to_string())
}

/// A rule: URLs matching `pattern` open in the browser whose path contains
/// `browser`; `pattern` is a regular expression when `is_regex` is
/// `Some(true)`, a substring otherwise.
#[derive(Debug)]
pub struct Rule {
    pub pattern: String,
    pub browser: String,
    pub is_regex: Option<bool>,
}

impl View for Rule {
    type V = (Seq<char>, Seq<char>, Option<bool>);

    open spec fn view(&self) -> (Seq<char>, Seq<char>, Option<bool>) {
        (self.pattern@, self.browser@, self.is_regex)
    }
}

/// Views of a list of rules.
pub open spec fn rule_views(rules: Seq<Rule>) -> Seq<(Seq<char>, Seq<char>, Option<bool>)> {
    rules.map_values(|r: Rule| r@)
}

/// The rule's pattern matches the URL: a regex that compiles and matches,
/// or a substring of the URL.
pub open spec fn rule_applies(rule: (Seq<char>, Seq<char>, Option<bool>), url: Seq<char>) -> bool {
    if rule.2 == Some(true) {
        regex_compiles(rule.0) && regex_matches(rule.0, url)
    } else {
        contains_seq(url, rule.0)
    }
}

/// Index of the first text whose lowercase contains `wanted`.
pub open spec fn first_containing(texts: Seq<Seq<char>>, wanted: Seq<char>) -> Option<int>
    decreases texts.len(),
{
    if texts.len() == 0 {
        None
    } else if contains_seq(texts[0], wanted) {
        Some(0)
    } else {
        match first_containing(texts.drop_first(), wanted) {
            Some(i) => Some(i + 1),
            None => None,
        }
    }
}

/// The lowercase of each text.
pub open spec fn lowercased(texts: Seq<Seq<char>>) -> Seq<Seq<char>> {
    texts.map_values(|t: Seq<char>| unicode_lowercase(t))
}

/// The first browser whose lowercased path contains the lowercased
/// `wanted` browser of a rule.
pub open spec fn browser_for(browsers: Seq<Seq<char>>, wanted: Seq<char>) -> Option<Seq<char>> {
    match first_containing(lowercased(browsers), unicode_lowercase(wanted)) {
        Some(i) => Some(browsers[i]),
        None => None,
    }
}

/// The browser chosen by the rules: that of the first rule, in order, that
/// applies to the URL and whose browser is among `browsers`.
pub open spec fn rule_choice(
    rules: Seq<(Seq<char>, Seq<char>, Option<bool>)>,
    url: Seq<char>,
    browsers: Seq<Seq<char>>,
) -> Option<Seq<char>>
    decreases rules.len(),
{
    if rules.len() == 0 {
        None
    } else if rule_applies(rules[0], url) && browser_for(browsers, rules[0].1) is Some {
        browser_for(browsers, rules[0].1)
    } else {
        rule_choice(rules.drop_first(), url, browsers)
    }
}

/// Lemma: a position found by `first_containing` holds a match, and there
/// is none before it.
proof fn lemma_first_containing(texts: Seq<Seq<char>>, wanted: Seq<char>, i: int)
    requires
        0 <= i < texts.len(),
        contains_seq(texts[i], wanted),
        forall|j: int| 0 <= j < i ==> !contains_seq(#[trigger] texts[j], wanted),
    ensures
        first_containing(texts, wanted) == Some(i),
    decreases i,
{
    if i > 0 {
        lemma_first_containing(texts.drop_first(), wanted, i - 1);
    }
}

/// Lemma: no text matches, so there is no first match.
proof fn lemma_first_containing_none(texts: Seq<Seq<char>>, wanted: Seq<char>)
    requires
        forall|j: int| 0 <= j < texts.len() ==> !contains_seq(#[trigger] texts[j], wanted),
    ensures
        first_containing(texts, wanted) is None,
    decreases texts.len(),
{
    if texts.len() > 0 {
        lemma_first_containing_none(texts.drop_first(), wanted);
    }
}

/// Lemma: a first match is a valid position.
proof fn lemma_first_containing_bounds(texts: Seq<Seq<char>>, wanted: Seq<char>)
    ensures
        first_containing(texts, wanted) matches Some(i) ==> 0 <= i < texts.len(),
    decreases texts.len(),
{
    if texts.len() > 0 {
        lemma_first_containing_bounds(texts.drop_first(), wanted);
    }
}

/// Position of the first of `lowered` that contains `wanted`.
pub fn first_containing_index(lowered: &[String], wanted: &str) -> (r: Option<usize>)
    ensures
        match r {
            Some(i) => first_containing(string_views(lowered@), wanted@) == Some(i as int),
            None => first_containing(string_views(lowered@), wanted@) is None,
        },
{
    let ghost ts = string_views(lowered@);
    let w = chars_of(wanted);
    let mut i: usize = 0;
    while i < lowered.len()
        invariant
            i <= lowered.len(),
            ts == string_views(lowered@),
            w@ == wanted@,
            forall|j: int| 0 <= j < i ==> !contains_seq(#[trigger] ts[j], wanted@),
        decreases lowered.len() - i,
    {
        let t = chars_of(lowered[i].as_str());
        if contains_chars(&t, &w) {
            proof {
                lemma_first_containing(ts, wanted@, i as int);
            }
            return Some(i);
        }
        i += 1;
    }
    proof {
        lemma_first_containing_none(ts, wanted@);
    }
    None
}

/// The lowercase of each browser path.
fn lowercase_all(browsers: &[String]) -> (r: Vec<String>)
    ensures
        string_views(r@) == lowercased(string_views(browsers@)),
{
    let mut r: Vec<String> = Vec::new();
    let mut i: usize = 0;
    while i < browsers.len()
        invariant
            i <= browsers.len(),
            string_views(r@) == lowercased(string_views(browsers@)).take(i as int),
        decreases browsers.len() - i,
    {
        let ghost before = r@;
        let l = to_lowercase(browsers[i].as_str());
        r.push(l);
        assert(string_views(r@) =~= string_views(before).push(l@));
        assert(lowercased(string_views(browsers@))[i as int] == unicode_lowercase(browsers@[i as int]@));
        assert(string_views(r@) =~= lowercased(string_views(browsers@)).take(i + 1));
        i += 1;
    }
    assert(lowercased(string_views(browsers@)).take(browsers.len() as int) =~= lowercased(
        string_views(browsers@),
    ));
    r
}

/// Whether the rule's pattern matches the URL.
pub fn rule_matches_url(rule: &Rule, url: &str) -> (r: bool)
    ensures
        r == rule_applies(rule@, url@),
        rule@.2 == Some(true) ==> r == (regex_compiles(rule@.0) && regex_matches(rule@.0, url@)),
        rule@.2 != Some(true) ==> r == contains_seq(url@, rule@.0),
{
    let is_regex = match rule.is_regex {
        Some(b) => b,
        None => false,
    };
    if is_regex {
        match compile_regex(rule.pattern.as_str()) {
            Ok(compiled) => regex_is_match(&compiled, url),
            Err(_) => false,
        }
    } else {
        let u = chars_of(url);
        let p = chars_of(rule.pattern.as_str());
        contains_chars(&u, &p)
    }
}

/// The browser the rules send `url` to: the first rule, in order, whose
/// pattern matches the URL and whose browser text is contained
/// (case-insensitively) in the path of one of `browsers` selects the first
/// such path.
pub fn find_rule_browser(rules: &[Rule], url: &str, browsers: &[String]) -> (r: Option<String>)
    ensures
        opt_view(r) == rule_choice(rule_views(rules@), url@, string_views(browsers@)),
{
    let lowered = lowercase_all(browsers);
    let ghost rs = rule_views(rules@);
    let ghost bs = string_views(browsers@);
    let mut i: usize = 0;
    assert(rs.skip(0) =~= rs);
    while i < rules.len()
        invariant
            i <= rules.len(),
            rs == rule_views(rules@),
            bs == string_views(browsers@),
            string_views(lowered@) == lowercased(bs),
            lowered@.len() == browsers@.len(),
            rule_choice(rs, url@, bs) == rule_choice(rs.skip(i as int), url@, bs),
        decreases rules.len() - i,
    {
        assert(rs.skip(i as int).drop_first() =~= rs.skip(i + 1));
        assert(rs.skip(i as int)[0] == rules@[i as int]@);
        let rule = &rules[i];
        if rule_matches_url(rule, url) {
            let wanted = to_lowercase(rule.browser.as_str());
            match first_containing_index(&lowered, wanted.as_str()) {
                Some(k) => {
                    proof {
                        lemma_first_containing_bounds(lowercased(bs), wanted@);
                    }
                    return Some(browsers[k].clone());
                },
                None => {},
            }
        }
        i += 1;
    }
    assert(rs.skip(rules.len() as int) =~= Seq::<(Seq<char>, Seq<char>, Option<bool>)>::empty());
    None
}

/// What to do with a URL to open.
pub enum UrlOpenPlan {
    /// A rule chose this browser.
    Launch { browser_path: String },
    /// No rule applies and no browser was found.
    NoBrowsers,
    /// No rule applies: ask in the dialog (no terminal to ask in).
    ChooseWithDialog,
    /// No rule applies: ask on the terminal.
    ChooseInTerminal,
}

/// Decides how to open `url` given the rules, the detected browsers and
/// whether standard input is a terminal.
pub fn plan_url_open(rules: &[Rule], url: &str, browsers: &[String], stdin_is_terminal: bool) -> (r:
    UrlOpenPlan)
    ensures
        match rule_choice(rule_views(rules@), url@, string_views(browsers@)) {
            Some(b) => r matches UrlOpenPlan::Launch { browser_path } && browser_path@ == b,
            None => if browsers.len() == 0 {
                r is NoBrowsers
            } else if !stdin_is_terminal {
                r is ChooseWithDialog
            } else {
                r is ChooseInTerminal
            },
        },
{
    match find_rule_browser(rules, url, browsers) {
        Some(browser_path) => UrlOpenPlan::Launch { browser_path },
        None => {
            if browsers.len() == 0 {
                UrlOpenPlan::NoBrowsers
            } else if !stdin_is_terminal {
                UrlOpenPlan::ChooseWithDialog
            } else {
                UrlOpenPlan::ChooseInTerminal
            }
        },
    }
}

/// A new rule; a substring rule leaves `is_regex` unset.
pub fn new_rule(pattern: String, browser: String, regex: bool) -> (r: Rule)
    ensures
        r@ == (pattern@, browser@, if regex { Some(true) } else { None::<bool> }),
{
    Rule { pattern, browser, is_regex: if regex { Some(true) } else { None } }
}

/// The domain of `url` as `url::Url` reads it.
pub open spec fn domain_spec(url: Seq<char>) -> Option<Seq<char>> {
    if url_parses(url) {
        url_domain(url)
    } else {
        None
    }
}

/// The domain of a URL, when it parses and its host is a domain name.
pub fn url_domain_text(url: &str) -> (r: Option<String>)
    ensures
        opt_view(r) == domain_spec(url@),
{
    match parse_url(url) {
        Ok(u) => domain_of(&u),
        Err(_) => None,
    }
}

/// A URL has a domain exactly when `url::Url::parse` accepts it and the
/// parsed URL's host is a domain; the domain is the one `Url::domain`
/// gives.
pub proof fn lemma_domain_from_parsed_url(url: Seq<char>)
    ensures
        domain_spec(url) is Some <==> url_parses(url) && url_domain(url) is Some,
        domain_spec(url) is Some ==> domain_spec(url) == url_domain(url),
{
}

/// The substring rule saved when the user asks to remember a choice: the
/// URL's domain, sent to the chosen browser.
pub fn rule_for_domain(domain: String, browser_path: &str) -> (r: Rule)
    ensures
        r@ == (domain@, browser_path@, None::<bool>),
{
    new_rule(domain, browser_path.to_string(), false)
}

/// The rule remembering a choice for `url`, `None` when the URL has no
/// domain.
pub fn rule_for_url(url: &str, browser_path: &str) -> (r: Option<Rule>)
    ensures
        match r {
            Some(rule) => domain_spec(url@) == Some(rule@.0) && rule@.1 == browser_path@
                && rule@.2 is None,
            None => domain_spec(url@) is None,
        },
{
    match url_domain_text(url) {
        Some(d) => Some(rule_for_domain(d, browser_path)),
        None => None,
    }
}

/// The browser used when the user could not be asked (no input, or no
/// dialog): the first listed one.
pub fn fallback_browser(browsers: &[String]) -> (r: Option<String>)
    ensures
        match r {
            Some(b) => browsers.len() > 0 && b@ == browsers@[0]@,
            None => browsers.len() == 0,
        },
{
    if browsers.len() > 0 {
        Some(browsers[0].clone())
    } else {
        None
    }
}

/// What happens to the rules after a chosen browser was started.
pub enum AfterLaunch {
    /// Nothing is saved: no rule was asked for, or the launch failed.
    KeepRules,
    /// Save this rule.
    SaveRule(Rule),
    /// A rule was asked for but the URL has no domain to save it for.
    NoDomain,
}

/// Decides, after starting `browser_path` for `url`, whether to save a rule:
/// only when one was asked for and the launch succeeded, and then the rule
/// for the URL's domain.
pub fn after_launch(url: &str, browser_path: &str, launched: bool, save_rule: bool) -> (r:
    AfterLaunch)
    ensures
        !(launched && save_rule) ==> r is KeepRules,
        launched && save_rule ==> match domain_spec(url@) {
            Some(d) => r matches AfterLaunch::SaveRule(rule) && rule@ == (
                d,
                browser_path@,
                None::<bool>,
            ),
            None => r is NoDomain,
        },
{
    if launched && save_rule {
        match rule_for_url(url, browser_path) {
            Some(rule) => AfterLaunch::SaveRule(rule),
            None => AfterLaunch::NoDomain,
        }
    } else {
        AfterLaunch::KeepRules
    }
}

/// The rules other than those with pattern `pattern`, in order.
pub open spec fn without_pattern(
    rules: Seq<(Seq<char>, Seq<char>, Option<bool>)>,
    pattern: Seq<char>,
) -> Seq<(Seq<char>, Seq<char>, Option<bool>)>
    decreases rules.len(),
{
    if rules.len() == 0 {
        rules
    } else {
        let kept = without_pattern(rules.drop_last(), pattern);
        if rules.last().0 == pattern {
            kept
        } else {
            kept.push(rules.last())
        }
    }
}

/// A copy of a rule.
pub fn copy_rule(rule: &Rule) -> (r: Rule)
    ensures
        r@ == rule@,
{
    Rule { pattern: rule.pattern.clone(), browser: rule.browser.clone(), is_regex: rule.is_regex }
}

/// The rules whose pattern is not `pattern`, in order.
pub fn remove_rules_with_pattern(rules: &[Rule], pattern: &str) -> (r: Vec<Rule>)
    ensures
        rule_views(r@) == without_pattern(rule_views(rules@), pattern@),
        rule_views(r@) == rule_views(rules@).filter(pattern_differs(pattern@)),
{
    let ghost rs = rule_views(rules@);
    let p = chars_of(pattern);
    let mut out: Vec<Rule> = Vec::new();
    let mut i: usize = 0;
    while i < rules.len()
        invariant
            i <= rules.len(),
            rs == rule_views(rules@),
            p@ == pattern@,
            rule_views(out@) == without_pattern(rs.take(i as int), pattern@),
        decreases rules.len() - i,
    {
        assert(rs.take(i + 1).drop_last() =~= rs.take(i as int));
        assert(rs.take(i + 1).last() == rules@[i as int]@);
        let q = chars_of(rules[i].pattern.as_str());
        if !crate::text::same_chars(&q, &p) {
            let ghost before = out@;
            out.push(copy_rule(&rules[i]));
            assert(rule_views(out@) =~= rule_views(before).push(rules@[i as int]@));
        }
        i += 1;
    }
    assert(rs.take(rules.len() as int) =~= rs);
    proof {
        lemma_removal_keeps_order(rs, pattern@);
    }
    out
}

/// A rule that sends the URL somewhere: it applies to the URL and its
/// browser is among `browsers`.
pub open spec fn rule_fires(
    rule: (Seq<char>, Seq<char>, Option<bool>),
    url: Seq<char>,
    browsers: Seq<Seq<char>>,
) -> bool {
    rule_applies(rule, url) && browser_for(browsers, rule.1) is Some
}

/// The first rule that fires decides: when the rules choose a browser, it
/// is the browser of some rule that fires with no rule firing before it;
/// when they choose none, no rule fires.
pub proof fn lemma_first_applicable_rule_wins(
    rules: Seq<(Seq<char>, Seq<char>, Option<bool>)>,
    url: Seq<char>,
    browsers: Seq<Seq<char>>,
)
    ensures
        match rule_choice(rules, url, browsers) {
            Some(b) => exists|i: int|
                0 <= i < rules.len() && #[trigger] rule_fires(rules[i], url, browsers)
                    && browser_for(browsers, rules[i].1) == Some(b) && forall|j: int|
                    0 <= j < i ==> !rule_fires(#[trigger] rules[j], url, browsers),
            None => forall|j: int|
                0 <= j < rules.len() ==> !rule_fires(#[trigger] rules[j], url, browsers),
        },
    decreases rules.len(),
{
    if rules.len() > 0 {
        let rest = rules.drop_first();
        lemma_first_applicable_rule_wins(rest, url, browsers);
        if rule_fires(rules[0], url, browsers) {
            assert(forall|j: int| 0 <= j < 0 ==> !rule_fires(#[trigger] rules[j], url, browsers));
        } else {
            match rule_choice(rest, url, browsers) {
                Some(b) => {
                    let k = choose|k: int|
                        0 <= k < rest.len() && #[trigger] rule_fires(rest[k], url, browsers)
                            && browser_for(browsers, rest[k].1) == Some(b) && forall|j: int|
                            0 <= j < k ==> !rule_fires(#[trigger] rest[j], url, browsers);
                    assert(rules[k + 1] == rest[k]);
                    assert forall|j: int| 0 <= j < k + 1 implies !rule_fires(
                        #[trigger] rules[j],
                        url,
                        browsers,
                    ) by {
                        if j > 0 {
                            assert(rules[j] == rest[j - 1]);
                        }
                    }
                    assert(rule_fires(rules[k + 1], url, browsers));
                },
                None => {
                    assert forall|j: int| 0 <= j < rules.len() implies !rule_fires(
                        #[trigger] rules[j],
                        url,
                        browsers,
                    ) by {
                        if j > 0 {
                            assert(rules[j] == rest[j - 1]);
                        }
                    }
                },
            }
        }
    }
}

/// Facts of `first_containing`: a position found holds a match with none
/// before it; no position found means no match.
proof fn lemma_first_containing_spec(texts: Seq<Seq<char>>, wanted: Seq<char>)
    ensures
        match first_containing(texts, wanted) {
            Some(i) => 0 <= i < texts.len() && contains_seq(texts[i], wanted) && forall|j: int|
                0 <= j < i ==> !contains_seq(#[trigger] texts[j], wanted),
            None => forall|j: int| 0 <= j < texts.len() ==> !contains_seq(#[trigger] texts[j], wanted),
        },
    decreases texts.len(),
{
    if texts.len() > 0 {
        let rest = texts.drop_first();
        lemma_first_containing_spec(rest, wanted);
        if !contains_seq(texts[0], wanted) {
            assert forall|j: int| 0 < j < texts.len() implies texts[j] == rest[j - 1] by {}
        }
    }
}

/// The browser a rule names is the first listed browser whose lowercased
/// path contains the rule's lowercased browser text; there is none when no
/// listed path contains it.
pub proof fn lemma_browser_for_first_match(browsers: Seq<Seq<char>>, wanted: Seq<char>)
    ensures
        match browser_for(browsers, wanted) {
            Some(b) => exists|i: int|
                0 <= i < browsers.len() && browsers[i] == b && contains_seq(
                    unicode_lowercase(#[trigger] browsers[i]),
                    unicode_lowercase(wanted),
                ) && forall|j: int|
                    0 <= j < i ==> !contains_seq(
                        unicode_lowercase(#[trigger] browsers[j]),
                        unicode_lowercase(wanted),
                    ),
            None => forall|j: int|
                0 <= j < browsers.len() ==> !contains_seq(
                    unicode_lowercase(#[trigger] browsers[j]),
                    unicode_lowercase(wanted),
                ),
        },
{
    let low = lowercased(browsers);
    lemma_first_containing_spec(low, unicode_lowercase(wanted));
    assert forall|j: int| 0 <= j < browsers.len() implies low[j] == unicode_lowercase(
        #[trigger] browsers[j],
    ) by {}
    match first_containing(low, unicode_lowercase(wanted)) {
        Some(i) => {
            assert(low[i] == unicode_lowercase(browsers[i]));
            assert forall|j: int| 0 <= j < i implies !contains_seq(
                unicode_lowercase(#[trigger] browsers[j]),
                unicode_lowercase(wanted),
            ) by {
                assert(low[j] == unicode_lowercase(browsers[j]));
            }
        },
        None => {
            assert forall|j: int| 0 <= j < browsers.len() implies !contains_seq(
                unicode_lowercase(#[trigger] browsers[j]),
                unicode_lowercase(wanted),
            ) by {
                assert(low[j] == unicode_lowercase(browsers[j]));
            }
        },
    }
}

/// The test that a rule's pattern is not `pattern`.
pub open spec fn pattern_differs(pattern: Seq<char>) -> spec_fn(
    (Seq<char>, Seq<char>, Option<bool>),
) -> bool {
    |r: (Seq<char>, Seq<char>, Option<bool>)| r.0 != pattern
}

/// Removing the rules with a pattern keeps exactly the other rules, in
/// their order: the result is the subsequence of the rules whose pattern
/// differs.
pub proof fn lemma_removal_keeps_order(
    rules: Seq<(Seq<char>, Seq<char>, Option<bool>)>,
    pattern: Seq<char>,
)
    ensures
        without_pattern(rules, pattern) == rules.filter(pattern_differs(pattern)),
    decreases rules.len(),
{
    reveal(Seq::filter);
    if rules.len() > 0 {
        lemma_removal_keeps_order(rules.drop_last(), pattern);
    }
}

/// Of two kept rules, the earlier one stays earlier: for rules `i < j`
/// whose patterns differ from `pattern`, the result holds rule `i` at a
/// position before rule `j`.
pub proof fn lemma_removal_keeps_relative_order(
    rules: Seq<(Seq<char>, Seq<char>, Option<bool>)>,
    pattern: Seq<char>,
    i: int,
    j: int,
)
    requires
        0 <= i < j < rules.len(),
        rules[i].0 != pattern,
        rules[j].0 != pattern,
    ensures
        exists|a: int, b: int|
            0 <= a < b < without_pattern(rules, pattern).len() && without_pattern(
                rules,
                pattern,
            )[a] == rules[i] && without_pattern(rules, pattern)[b] == rules[j],
    decreases rules.len(),
{
    let front = rules.drop_last();
    let kept = without_pattern(front, pattern);
    if j < rules.len() - 1 {
        assert(front[i] == rules[i] && front[j] == rules[j]);
        lemma_removal_keeps_relative_order(front, pattern, i, j);
        let (a, b) = choose|a: int, b: int|
            0 <= a < b < kept.len() && kept[a] == front[i] && kept[b] == front[j];
        let w = without_pattern(rules, pattern);
        if rules.last().0 != pattern {
            assert(w == kept.push(rules.last()));
            assert(w[a] == rules[i]);
            assert(w[b] == rules[j]);
        } else {
            assert(w == kept);
        }
        assert(0 <= a < b < w.len() && w[a] == rules[i] && w[b] == rules[j]);
    } else {
        assert(front[i] == rules[i]);
        lemma_removed_pattern_absent(front, pattern);
        assert(front.contains(rules[i]));
        let a = choose|a: int| 0 <= a < kept.len() && kept[a] == rules[i];
        assert(rules.last() == rules[j]);
        let w = without_pattern(rules, pattern);
        assert(w == kept.push(rules.last()));
        assert(w[a] == rules[i]);
        assert(w[kept.len() as int] == rules[j]);
        assert(0 <= a < kept.len() as int && kept.len() < w.len());
    }
}

/// A regular-expression rule applies to a URL exactly when its pattern
/// compiles and matches the whole URL text.
pub proof fn lemma_regex_rule_matches_whole_url(
    rule: (Seq<char>, Seq<char>, Option<bool>),
    url: Seq<char>,
)
    requires
        rule.2 == Some(true),
    ensures
        rule_applies(rule, url) == (regex_compiles(rule.0) && regex_matches(rule.0, url)),
{
}

/// A rule whose `is_regex` is unset or `false` matches URLs by substring.
pub proof fn lemma_substring_by_default(rule: (Seq<char>, Seq<char>, Option<bool>), url: Seq<char>)
    requires
        rule.2 != Some(true),
    ensures
        rule_applies(rule, url) == contains_seq(url, rule.0),
{
}

/// After removing the rules with a pattern, no rule has that pattern, and
/// every other rule is still there.
pub proof fn lemma_removed_pattern_absent(
    rules: Seq<(Seq<char>, Seq<char>, Option<bool>)>,
    pattern: Seq<char>,
)
    ensures
        forall|i: int|
            0 <= i < without_pattern(rules, pattern).len() ==> (#[trigger] without_pattern(
                rules,
                pattern,
            )[i]).0 != pattern,
        forall|r: (Seq<char>, Seq<char>, Option<bool>)|
            rules.contains(r) && r.0 != pattern ==> without_pattern(rules, pattern).contains(r),
    decreases rules.len(),
{
    if rules.len() > 0 {
        lemma_removed_pattern_absent(rules.drop_last(), pattern);
        let kept = without_pattern(rules.drop_last(), pattern);
        assert forall|r: (Seq<char>, Seq<char>, Option<bool>)|
            rules.contains(r) && r.0 != pattern implies without_pattern(rules, pattern).contains(
            r,
        ) by {
            let k = choose|k: int| 0 <= k < rules.len() && rules[k] == r;
            if k < rules.len() - 1 {
                assert(rules.drop_last()[k] == r);
                assert(rules.drop_last().contains(r));
                let m = choose|m: int| 0 <= m < kept.len() && kept[m] == r;
                if rules.last().0 != pattern {
                    assert(kept.push(rules.last())[m] == r);
                }
            } else {
                assert(kept.push(rules.last())[kept.len() as int] == r);
            }
        }
    }
}

} // verus!
