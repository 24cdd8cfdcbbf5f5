//! Clipboard preferences: their validation rules, the text forms they are
//! stored in, and loading and saving them in the settings table.
use vstd::prelude::*;

use crate::decimal::{
    decimal, is_digit, lemma_decimal_roundtrip, lemma_parse_decimal, parse_unsigned, parse_unsigned_text,
    render_decimal,
};
use crate::settings_store::{SettingsStore, StorageError};
use crate::text::{chars_of, str_equal, string_from_chars};
use crate::text_lists::{
    char_views, insert_sorted, join_lines, join_with_newlines,
    lemma_non_empty_keeps_all, lemma_sorted_same_elements, lemma_split_join, lemma_trim_of_trimmed,
    lower_ascii, lowercase_ascii, non_empty, separator, split_pieces, split_text, strictly_sorted,
    string_views, trim, trim_range,
};

verus! {

/// Settings keys.
pub const MONITORING_ENABLED_KEY: &'static str = "clipboard.monitoring_enabled";
pub const RETENTION_DAYS_KEY: &'static str = "clipboard.retention_days";
pub const MAX_ITEMS_KEY: &'static str = "clipboard.max_items";
pub const IGNORED_APPS_KEY: &'static str = "clipboard.ignored_apps";
pub const HISTORY_REUSE_STRATEGY_KEY: &'static str = "clipboard.history_reuse_strategy";
pub const SENSITIVE_RULES_KEY: &'static str = "clipboard.sensitive_rules";

/// History size limits and list bounds.
pub const DEFAULT_MAX_ITEMS: u32 = 100;
pub const MIN_MAX_ITEMS: u32 = 10;
pub const MAX_MAX_ITEMS: u32 = 1_000;
pub const MAX_IGNORED_APPS: usize = 64;
pub const MAX_SENSITIVE_RULES: usize = 32;
pub const MAX_SENSITIVE_RULE_CHARS: usize = 256;

/// What copying or pasting an existing history item does to its position.
#[derive(Debug, Clone, Copy, PartialEq, Eq, Structural)]
pub enum ClipboardHistoryReuseStrategy {
    Promote,
    Keep,
}

/// Why clipboard settings were rejected.
#[derive(Debug, Clone, Copy, PartialEq, Eq, Structural)]
pub enum ClipboardSettingsError {
    Storage(StorageError),
    InvalidRetentionDays,
    InvalidMaxItems,
    InvalidIgnoredApps,
    InvalidHistoryReuseStrategy,
    InvalidSensitiveRules,
}

impl ClipboardHistoryReuseStrategy {
    /// The stored name of the strategy.
    pub fn as_str(self) -> (name: &'static str)
        ensures
            name@ == strategy_name(self),
    {
        match self {
            ClipboardHistoryReuseStrategy::Promote => "promote",
            ClipboardHistoryReuseStrategy::Keep => "keep",
        }
    }

    /// The strategy a stored name stands for.
    pub fn parse(value: &str) -> (result: Result<Self, ClipboardSettingsError>)
        ensures
            result == parse_strategy(value@),
    {
        if str_equal(value, "promote") {
            Ok(ClipboardHistoryReuseStrategy::Promote)
        } else if str_equal(value, "keep") {
            Ok(ClipboardHistoryReuseStrategy::Keep)
        } else {
            Err(ClipboardSettingsError::InvalidHistoryReuseStrategy)
        }
    }
}

/// The stored name of a strategy.
pub open spec fn strategy_name(strategy: ClipboardHistoryReuseStrategy) -> Seq<char> {
    match strategy {
        ClipboardHistoryReuseStrategy::Promote => "promote"@,
        ClipboardHistoryReuseStrategy::Keep => "keep"@,
    }
}

/// The strategy a stored name stands for.
pub open spec fn parse_strategy(value: Seq<char>) -> Result<ClipboardHistoryReuseStrategy, ClipboardSettingsError> {
    if value == "promote"@ {
        Ok(ClipboardHistoryReuseStrategy::Promote)
    } else if value == "keep"@ {
        Ok(ClipboardHistoryReuseStrategy::Keep)
    } else {
        Err(ClipboardSettingsError::InvalidHistoryReuseStrategy)
    }
}

/// Clipboard history preferences.
#[derive(Debug, Clone, PartialEq, Eq)]
pub struct ClipboardSettings {
    pub retention_days: Option<u16>,
    pub max_items: u32,
    pub ignored_apps: Vec<String>,
    pub history_reuse_strategy: ClipboardHistoryReuseStrategy,
    pub sensitive_rules: Vec<String>,
}

/// Clipboard preferences as values.
pub struct SettingsModel {
    pub retention_days: Option<u16>,
    pub max_items: u32,
    pub ignored_apps: Seq<Seq<char>>,
    pub history_reuse_strategy: ClipboardHistoryReuseStrategy,
    pub sensitive_rules: Seq<Seq<char>>,
}

impl ClipboardSettings {
    /// The preferences as values.
    pub open spec fn model(&self) -> SettingsModel {
        SettingsModel {
            retention_days: self.retention_days,
            max_items: self.max_items,
            ignored_apps: string_views(self.ignored_apps@),
            history_reuse_strategy: self.history_reuse_strategy,
            sensitive_rules: string_views(self.sensitive_rules@),
        }
    }
}

/// The default preferences: 30 days, 100 items, nothing ignored, promote on reuse, no rules.
pub open spec fn default_model() -> SettingsModel {
    SettingsModel {
        retention_days: Some(30),
        max_items: DEFAULT_MAX_ITEMS,
        ignored_apps: Seq::empty(),
        history_reuse_strategy: ClipboardHistoryReuseStrategy::Promote,
        sensitive_rules: Seq::empty(),
    }
}

impl Default for ClipboardSettings {
    fn default() -> (settings: Self)
        ensures
            settings.model() == default_model(),
    {
        let settings = ClipboardSettings {
            retention_days: Some(30),
            max_items: DEFAULT_MAX_ITEMS,
            ignored_apps: Vec::new(),
            history_reuse_strategy: ClipboardHistoryReuseStrategy::Promote,
            sensitive_rules: Vec::new(),
        };
        assert(settings.model().ignored_apps =~= Seq::<Seq<char>>::empty());
        assert(settings.model().sensitive_rules =~= Seq::<Seq<char>>::empty());
        settings
    }
}

// ---------------------------------------------------------------------------
// Regular expressions.

/// Whether `pattern` compiles as a `regex` crate regular expression.
pub uninterp spec fn regex_compiles(pattern: Seq<char>) -> bool;

/// Whether the compiled `pattern` matches somewhere in `text`.
pub uninterp spec fn regex_finds(pattern: Seq<char>, text: Seq<char>) -> bool;

/// `regex::Regex::new(pattern).is_ok()`.
#[verifier::external_body]
fn regex_is_valid(pattern: &str) -> (valid: bool)
    ensures
        valid == regex_compiles(pattern@),
{
    regex::Regex::new(pattern).is_ok()
}

/// `regex::Regex::new(pattern)` then `is_match(text)`; `false` when the
/// pattern does not compile.
#[verifier::external_body]
pub(crate) fn regex_is_match(pattern: &str, text: &str) -> (matched: bool)
    ensures
        matched == (regex_compiles(pattern@) && regex_finds(pattern@, text@)),
{
    match regex::Regex::new(pattern) {
        Ok(expression) => expression.is_match(text),
        Err(_) => false,
    }
}

// ---------------------------------------------------------------------------
// Validation.

/// Whether `c` may appear in an ignored process name.
pub open spec fn is_process_name_char(c: char) -> bool {
    let v = c as u32;
    ||| 48 <= v <= 57
    ||| 65 <= v <= 90
    ||| 97 <= v <= 122
    ||| c == '.'
    ||| c == '_'
    ||| c == '-'
}

/// An executable file name: ASCII letters, digits, `.`, `_` and `-`, at
/// most 128 long, ending in `.exe`.
pub open spec fn is_safe_process_name_spec(name: Seq<char>) -> bool {
    &&& 4 <= name.len() <= 128
    &&& name.subrange(name.len() - 4, name.len() as int) == ".exe"@
    &&& forall|i: int| 0 <= i < name.len() ==> is_process_name_char(#[trigger] name[i])
}

/// Whether `value` is a safe executable file name.
pub fn is_safe_process_name(value: &[char]) -> (safe: bool)
    ensures
        safe == is_safe_process_name_spec(value@),
{
    let len = value.len();
    if len < 4 || len > 128 {
        return false;
    }
    let suffix_ok = value[len - 4] == '.' && value[len - 3] == 'e' && value[len - 2] == 'x' && value[len
        - 1] == 'e';
    proof {
        reveal_strlit(".exe");
        let tail = value@.subrange(len - 4, len as int);
        if suffix_ok {
            assert(tail =~= ".exe"@);
        } else {
            if tail == ".exe"@ {
                assert(tail[0] == '.' && tail[1] == 'e' && tail[2] == 'x' && tail[3] == 'e');
            }
        }
    }
    if !suffix_ok {
        return false;
    }
    let mut i: usize = 0;
    while i < len
        invariant
            i <= len,
            len == value@.len(),
            forall|j: int| 0 <= j < i ==> is_process_name_char(#[trigger] value@[j]),
        decreases len - i,
    {
        let c = value[i];
        let v = c as u32;
        if !((48 <= v && v <= 57) || (65 <= v && v <= 90) || (97 <= v && v <= 122) || c == '.' || c
            == '_' || c == '-') {
            return false;
        }
        i += 1;
    }
    true
}

/// Whether a sensitive rule has an accepted length.
pub open spec fn rule_length_ok(rule: Seq<char>) -> bool {
    0 < rule.len() <= MAX_SENSITIVE_RULE_CHARS
}

/// Whether a list of sensitive rules is accepted.
pub open spec fn rules_ok(rules: Seq<Seq<char>>) -> bool {
    &&& rules.len() <= MAX_SENSITIVE_RULES
    &&& forall|i: int| 0 <= i < rules.len() ==> rule_length_ok(#[trigger] rules[i])
    &&& forall|i: int| 0 <= i < rules.len() ==> regex_compiles(#[trigger] rules[i])
}

/// Whether a list of ignored process names is accepted.
pub open spec fn apps_ok(apps: Seq<Seq<char>>) -> bool {
    &&& apps.len() <= MAX_IGNORED_APPS
    &&& forall|i: int| 0 <= i < apps.len() ==> is_safe_process_name_spec(#[trigger] apps[i])
}

/// The first rule the preferences break, if any.
pub open spec fn settings_error(settings: SettingsModel) -> Option<ClipboardSettingsError> {
    if !(settings.retention_days is None || settings.retention_days == Some(7u16)
        || settings.retention_days == Some(30u16) || settings.retention_days == Some(90u16)
        || settings.retention_days == Some(365u16)) {
        Some(ClipboardSettingsError::InvalidRetentionDays)
    } else if !(MIN_MAX_ITEMS <= settings.max_items <= MAX_MAX_ITEMS) {
        Some(ClipboardSettingsError::InvalidMaxItems)
    } else if !apps_ok(settings.ignored_apps) {
        Some(ClipboardSettingsError::InvalidIgnoredApps)
    } else if !rules_ok(settings.sensitive_rules) {
        Some(ClipboardSettingsError::InvalidSensitiveRules)
    } else {
        None
    }
}

/// Checks sensitive rules: count, length, then that each compiles.
fn validate_rules(rules: &Vec<String>) -> (result: Result<(), ClipboardSettingsError>)
    ensures
        result is Ok <==> rules_ok(string_views(rules@)),
        result is Err ==> result == Err::<(), ClipboardSettingsError>(
            ClipboardSettingsError::InvalidSensitiveRules,
        ),
{
    let ghost views = string_views(rules@);
    if rules.len() > MAX_SENSITIVE_RULES {
        return Err(ClipboardSettingsError::InvalidSensitiveRules);
    }
    let mut i: usize = 0;
    while i < rules.len()
        invariant
            i <= rules@.len(),
            views == string_views(rules@),
            forall|j: int| 0 <= j < i ==> rule_length_ok(#[trigger] views[j]),
        decreases rules.len() - i,
    {
        let count = chars_of(rules[i].as_str()).len();
        if count == 0 || count > MAX_SENSITIVE_RULE_CHARS {
            assert(!rule_length_ok(views[i as int]));
            return Err(ClipboardSettingsError::InvalidSensitiveRules);
        }
        i += 1;
    }
    let mut k: usize = 0;
    while k < rules.len()
        invariant
            k <= rules@.len(),
            views == string_views(rules@),
            forall|j: int| 0 <= j < rules@.len() ==> rule_length_ok(#[trigger] views[j]),
            forall|j: int| 0 <= j < k ==> regex_compiles(#[trigger] views[j]),
        decreases rules.len() - k,
    {
        if !regex_is_valid(rules[k].as_str()) {
            assert(!regex_compiles(views[k as int]));
            return Err(ClipboardSettingsError::InvalidSensitiveRules);
        }
        k += 1;
    }
    Ok(())
}

/// Checks the preferences: retention of 7, 30, 90 or 365 days or unlimited,
/// 10 to 1000 items, at most 64 safe process names, at most 32 rules of 1 to
/// 256 characters that compile as regular expressions.
pub fn validate(settings: &ClipboardSettings) -> (result: Result<(), ClipboardSettingsError>)
    ensures
        match settings_error(settings.model()) {
            None => result is Ok,
            Some(error) => result == Err::<(), ClipboardSettingsError>(error),
        },
{
    match settings.retention_days {
        None => {},
        Some(days) => {
            if !(days == 7 || days == 30 || days == 90 || days == 365) {
                return Err(ClipboardSettingsError::InvalidRetentionDays);
            }
        },
    }
    if settings.max_items < MIN_MAX_ITEMS || settings.max_items > MAX_MAX_ITEMS {
        return Err(ClipboardSettingsError::InvalidMaxItems);
    }
    let ghost apps = string_views(settings.ignored_apps@);
    if settings.ignored_apps.len() > MAX_IGNORED_APPS {
        return Err(ClipboardSettingsError::InvalidIgnoredApps);
    }
    let mut i: usize = 0;
    while i < settings.ignored_apps.len()
        invariant
            i <= settings.ignored_apps@.len(),
            apps == string_views(settings.ignored_apps@),
            apps.len() <= MAX_IGNORED_APPS,
            MIN_MAX_ITEMS <= settings.max_items <= MAX_MAX_ITEMS,
            settings.retention_days is None || settings.retention_days == Some(7u16)
                || settings.retention_days == Some(30u16) || settings.retention_days == Some(90u16)
                || settings.retention_days == Some(365u16),
            forall|j: int| 0 <= j < i ==> is_safe_process_name_spec(#[trigger] apps[j]),
        decreases settings.ignored_apps.len() - i,
    {
        let chars = chars_of(settings.ignored_apps[i].as_str());
        if !is_safe_process_name(chars.as_slice()) {
            assert(!is_safe_process_name_spec(apps[i as int]));
            return Err(ClipboardSettingsError::InvalidIgnoredApps);
        }
        i += 1;
    }
    validate_rules(&settings.sensitive_rules)
}

// ---------------------------------------------------------------------------
// Parsing stored lists.

/// The candidate process names of stored text: entries between commas and
/// line breaks, trimmed, ASCII-lowercased, empty ones dropped.
pub open spec fn app_candidates(text: Seq<char>) -> Seq<Seq<char>> {
    non_empty(split_pieces(text, separator(true)).map_values(|p: Seq<char>| lower_ascii(trim(p))))
}

/// The candidate rules of stored text: lines, trimmed, empty ones dropped.
pub open spec fn rule_candidates(text: Seq<char>) -> Seq<Seq<char>> {
    non_empty(split_pieces(text, separator(false)).map_values(|p: Seq<char>| trim(p)))
}

/// Whether `sorted` is the strictly sorted list of the values of `items`.
pub open spec fn is_sorted_set_of(sorted: Seq<Seq<char>>, items: Seq<Seq<char>>) -> bool {
    &&& strictly_sorted(sorted)
    &&& forall|x: Seq<char>|
        #![trigger sorted.contains(x)]
        #![trigger items.contains(x)]
        sorted.contains(x) <==> items.contains(x)
}

/// The sorted list of the distinct values of `items`.
pub open spec fn sorted_set(items: Seq<Seq<char>>) -> Seq<Seq<char>> {
    choose|sorted: Seq<Seq<char>>| is_sorted_set_of(sorted, items)
}

/// What parsing stored ignored applications gives: `InvalidIgnoredApps`
/// when a name is unsafe or more than 64 distinct names remain, else the
/// sorted distinct names.
pub open spec fn ignored_apps_result(text: Seq<char>) -> Result<Seq<Seq<char>>, ClipboardSettingsError> {
    let candidates = app_candidates(text);
    if exists|i: int| 0 <= i < candidates.len() && !is_safe_process_name_spec(#[trigger] candidates[i]) {
        Err(ClipboardSettingsError::InvalidIgnoredApps)
    } else if sorted_set(candidates).len() > MAX_IGNORED_APPS {
        Err(ClipboardSettingsError::InvalidIgnoredApps)
    } else {
        Ok(sorted_set(candidates))
    }
}

/// What parsing stored sensitive rules gives.
pub open spec fn sensitive_rules_result(text: Seq<char>) -> Result<Seq<Seq<char>>, ClipboardSettingsError> {
    let candidates = rule_candidates(text);
    if rules_ok(candidates) {
        Ok(candidates)
    } else {
        Err(ClipboardSettingsError::InvalidSensitiveRules)
    }
}

/// Parses stored ignored applications: separated by commas or line breaks,
/// trimmed, lowercased, sorted and without repeats.
pub fn parse_ignored_apps(value: &str) -> (result: Result<Vec<String>, ClipboardSettingsError>)
    ensures
        match ignored_apps_result(value@) {
            Ok(apps) => result matches Ok(parsed) && string_views(parsed@) == apps,
            Err(error) => result == Err::<Vec<String>, ClipboardSettingsError>(error),
        },
{
    let pieces = split_text(value, true);
    let ghost normalized = char_views(pieces@).map_values(|p: Seq<char>| lower_ascii(trim(p)));
    let ghost candidates = non_empty(normalized);
    let mut sorted: Vec<Vec<char>> = Vec::new();
    let mut k: usize = 0;
    assert(normalized.subrange(0, 0) =~= Seq::<Seq<char>>::empty());
    while k < pieces.len()
        invariant
            k <= pieces@.len(),
            normalized == char_views(pieces@).map_values(|p: Seq<char>| lower_ascii(trim(p))),
            candidates == non_empty(normalized),
            candidates == app_candidates(value@),
            strictly_sorted(char_views(sorted@)),
            forall|i: int| 0 <= i < non_empty(normalized.subrange(0, k as int)).len()
                ==> is_safe_process_name_spec(#[trigger] non_empty(normalized.subrange(0, k as int))[i]),
            is_sorted_set_of(char_views(sorted@), non_empty(normalized.subrange(0, k as int))),
        decreases pieces.len() - k,
    {
        let piece = &pieces[k];
        let mut entry = trim_range(piece, 0, piece.len());
        lowercase_ascii(&mut entry);
        let ghost prefix = normalized.subrange(0, k as int);
        let ghost next = normalized.subrange(0, k + 1);
        proof {
            assert(piece@.subrange(0, piece@.len() as int) =~= piece@);
            assert(next.drop_last() =~= prefix);
            assert(next.last() == entry@);
        }
        if entry.len() > 0 {
            if !is_safe_process_name(entry.as_slice()) {
                proof {
                    assert(non_empty(next) == non_empty(prefix).push(entry@));
                    lemma_non_empty_prefix_in(normalized, k + 1);
                    let last = non_empty(next).len() - 1;
                    assert(non_empty(next)[last] == entry@);
                    assert(candidates.contains(entry@));
                    let w = choose|w: int| 0 <= w < candidates.len() && candidates[w] == entry@;
                    assert(!is_safe_process_name_spec(candidates[w]));
                }
                return Err(ClipboardSettingsError::InvalidIgnoredApps);
            }
            let ghost before = char_views(sorted@);
            insert_sorted(&mut sorted, entry);
            proof {
                assert(non_empty(next) == non_empty(prefix).push(next.last()));
                assert forall|x: Seq<char>| #[trigger] char_views(sorted@).contains(x) <==> non_empty(next).contains(x) by {
                    if non_empty(next).contains(x) {
                        let j = choose|j: int| 0 <= j < non_empty(next).len() && non_empty(next)[j] == x;
                        if j < non_empty(prefix).len() {
                            assert(non_empty(prefix)[j] == x);
                        }
                    }
                    if non_empty(prefix).contains(x) {
                        let j = choose|j: int| 0 <= j < non_empty(prefix).len() && non_empty(prefix)[j] == x;
                        assert(non_empty(next)[j] == x);
                    }
                    if x == next.last() {
                        assert(non_empty(next)[non_empty(next).len() - 1] == x);
                    }
                }
            }
        } else {
            assert(non_empty(next) == non_empty(prefix));
        }
        k += 1;
    }
    assert(normalized.subrange(0, normalized.len() as int) =~= normalized);
    proof {
        lemma_sorted_set_unique(char_views(sorted@), candidates);
        assert(!(exists|i: int| 0 <= i < candidates.len() && !is_safe_process_name_spec(#[trigger] candidates[i])));
    }
    if sorted.len() > MAX_IGNORED_APPS {
        return Err(ClipboardSettingsError::InvalidIgnoredApps);
    }
    let mut apps: Vec<String> = Vec::new();
    let mut j: usize = 0;
    while j < sorted.len()
        invariant
            j <= sorted@.len(),
            string_views(apps@) == char_views(sorted@).subrange(0, j as int),
        decreases sorted.len() - j,
    {
        let ghost before = string_views(apps@);
        let name = string_from_chars(&sorted[j]);
        apps.push(name);
        assert(string_views(apps@) =~= before.push(char_views(sorted@)[j as int]));
        j += 1;
        assert(string_views(apps@) =~= char_views(sorted@).subrange(0, j as int));
    }
    assert(char_views(sorted@).subrange(0, sorted@.len() as int) =~= char_views(sorted@));
    Ok(apps)
}

proof fn lemma_non_empty_prefix_in(items: Seq<Seq<char>>, k: int)
    requires
        0 <= k <= items.len(),
    ensures
        forall|i: int| 0 <= i < non_empty(items.subrange(0, k)).len() ==> non_empty(items).contains(
            #[trigger] non_empty(items.subrange(0, k))[i],
        ),
    decreases items.len() - k,
{
    if k == items.len() {
        assert(items.subrange(0, k) =~= items);
        assert forall|i: int| 0 <= i < non_empty(items).len() implies non_empty(items).contains(
            #[trigger] non_empty(items)[i],
        ) by {}
    } else {
        lemma_non_empty_prefix_in(items, k + 1);
        let shorter = items.subrange(0, k);
        let longer = items.subrange(0, k + 1);
        assert(longer.drop_last() =~= shorter);
        assert forall|i: int| 0 <= i < non_empty(shorter).len() implies non_empty(items).contains(
            #[trigger] non_empty(shorter)[i],
        ) by {
            assert(non_empty(longer)[i] == non_empty(shorter)[i]);
        }
    }
}

proof fn lemma_sorted_set_unique(sorted: Seq<Seq<char>>, items: Seq<Seq<char>>)
    requires
        is_sorted_set_of(sorted, items),
    ensures
        sorted_set(items) == sorted,
{
    let chosen = sorted_set(items);
    assert(is_sorted_set_of(chosen, items));
    lemma_sorted_same_elements(chosen, sorted);
}

/// Parses stored sensitive rules: one per line, trimmed, empty lines dropped;
/// the rules must pass validation.
pub fn parse_sensitive_rules(value: &str) -> (result: Result<Vec<String>, ClipboardSettingsError>)
    ensures
        match sensitive_rules_result(value@) {
            Ok(rules) => result matches Ok(parsed) && string_views(parsed@) == rules,
            Err(error) => result == Err::<Vec<String>, ClipboardSettingsError>(error),
        },
{
    let pieces = split_text(value, false);
    let ghost trimmed = char_views(pieces@).map_values(|p: Seq<char>| trim(p));
    let mut rules: Vec<String> = Vec::new();
    let mut k: usize = 0;
    assert(trimmed.subrange(0, 0) =~= Seq::<Seq<char>>::empty());
    while k < pieces.len()
        invariant
            k <= pieces@.len(),
            trimmed == char_views(pieces@).map_values(|p: Seq<char>| trim(p)),
            string_views(rules@) == non_empty(trimmed.subrange(0, k as int)),
        decreases pieces.len() - k,
    {
        let piece = &pieces[k];
        let entry = trim_range(piece, 0, piece.len());
        let ghost next = trimmed.subrange(0, k + 1);
        proof {
            assert(piece@.subrange(0, piece@.len() as int) =~= piece@);
            assert(next.drop_last() =~= trimmed.subrange(0, k as int));
            assert(next.last() == entry@);
        }
        if entry.len() > 0 {
            let ghost before = string_views(rules@);
            rules.push(string_from_chars(&entry));
            assert(string_views(rules@) =~= before.push(entry@));
        }
        k += 1;
    }
    assert(trimmed.subrange(0, trimmed.len() as int) =~= trimmed);
    match validate_rules(&rules) {
        Ok(()) => Ok(rules),
        Err(error) => Err(error),
    }
}


// ---------------------------------------------------------------------------
// Loading and saving.

/// Whether clipboard monitoring is on: stored `true`, or on by default.
pub fn monitoring_enabled(store: &SettingsStore) -> (result: Result<bool, StorageError>)
    ensures
        result == Ok::<bool, StorageError>(
            match store.value(MONITORING_ENABLED_KEY@) {
                Some(value) => value == "true"@,
                None => true,
            },
        ),
{
    match store.read_setting(MONITORING_ENABLED_KEY) {
        Ok(Some(value)) => Ok(str_equal(value.as_str(), "true")),
        Ok(None) => Ok(true),
        Err(error) => Err(error),
    }
}

/// Stores whether clipboard monitoring is on.
pub fn set_monitoring_enabled(store: &mut SettingsStore, enabled: bool) -> (result: Result<(), StorageError>)
    ensures
        result is Ok,
        final(store).value(MONITORING_ENABLED_KEY@) == Some(if enabled { "true"@ } else { "false"@ }),
        forall|key: Seq<char>| key != MONITORING_ENABLED_KEY@ ==> #[trigger] final(store).value(key)
            == old(store).value(key),
{
    let value = if enabled { "true" } else { "false" };
    store.write_setting(MONITORING_ENABLED_KEY, value.to_owned());
    Ok(())
}

/// Reading the monitoring switch gives back what was stored.
pub proof fn lemma_monitoring_roundtrip(enabled: bool)
    ensures
        ((if enabled { "true"@ } else { "false"@ }) == "true"@) == enabled,
{
    reveal_strlit("true");
    reveal_strlit("false");
    if !enabled {
        assert("false"@[0] != "true"@[0]);
    }
}

/// The stored text of a retention period.
pub open spec fn retention_text(days: Option<u16>) -> Seq<char> {
    match days {
        Some(d) => decimal(d as nat),
        None => "unlimited"@,
    }
}

/// The retention period stored text gives (30 days when absent).
pub open spec fn retention_from(value: Option<Seq<char>>) -> Result<Option<u16>, ClipboardSettingsError> {
    match value {
        None => Ok(Some(30u16)),
        Some(text) => if text == "unlimited"@ {
            Ok(None)
        } else {
            match parse_unsigned(text, 0xffff) {
                Some(days) => Ok(Some(days as u16)),
                None => Err(ClipboardSettingsError::InvalidRetentionDays),
            }
        },
    }
}

/// The item limit stored text gives (100 when absent).
pub open spec fn max_items_from(value: Option<Seq<char>>) -> Result<u32, ClipboardSettingsError> {
    match value {
        None => Ok(DEFAULT_MAX_ITEMS),
        Some(text) => match parse_unsigned(text, 0xffff_ffff) {
            Some(items) => Ok(items as u32),
            None => Err(ClipboardSettingsError::InvalidMaxItems),
        },
    }
}

/// The ignored applications stored text gives (none when absent).
pub open spec fn apps_from(value: Option<Seq<char>>) -> Result<Seq<Seq<char>>, ClipboardSettingsError> {
    match value {
        None => Ok(Seq::empty()),
        Some(text) => ignored_apps_result(text),
    }
}

/// The reuse strategy stored text gives (promote when absent).
pub open spec fn strategy_from(value: Option<Seq<char>>) -> Result<ClipboardHistoryReuseStrategy, ClipboardSettingsError> {
    match value {
        None => Ok(ClipboardHistoryReuseStrategy::Promote),
        Some(text) => parse_strategy(text),
    }
}

/// The sensitive rules stored text gives (none when absent).
pub open spec fn rules_from(value: Option<Seq<char>>) -> Result<Seq<Seq<char>>, ClipboardSettingsError> {
    match value {
        None => Ok(Seq::empty()),
        Some(text) => sensitive_rules_result(text),
    }
}

/// The preferences five stored values give, checked in key order and then validated.
pub open spec fn load_from_values(
    retention: Option<Seq<char>>,
    max_items: Option<Seq<char>>,
    ignored_apps: Option<Seq<char>>,
    strategy: Option<Seq<char>>,
    rules: Option<Seq<char>>,
) -> Result<SettingsModel, ClipboardSettingsError> {
    match retention_from(retention) {
        Err(e) => Err(e),
        Ok(retention_days) => match max_items_from(max_items) {
            Err(e) => Err(e),
            Ok(max_items) => match apps_from(ignored_apps) {
                Err(e) => Err(e),
                Ok(ignored_apps) => match strategy_from(strategy) {
                    Err(e) => Err(e),
                    Ok(history_reuse_strategy) => match rules_from(rules) {
                        Err(e) => Err(e),
                        Ok(sensitive_rules) => {
                            let model = SettingsModel {
                                retention_days,
                                max_items,
                                ignored_apps,
                                history_reuse_strategy,
                                sensitive_rules,
                            };
                            match settings_error(model) {
                                Some(e) => Err(e),
                                None => Ok(model),
                            }
                        },
                    },
                },
            },
        },
    }
}

/// The preferences stored in `store`.
pub open spec fn stored_settings(store: SettingsStore) -> Result<SettingsModel, ClipboardSettingsError> {
    load_from_values(
        store.value(RETENTION_DAYS_KEY@),
        store.value(MAX_ITEMS_KEY@),
        store.value(IGNORED_APPS_KEY@),
        store.value(HISTORY_REUSE_STRATEGY_KEY@),
        store.value(SENSITIVE_RULES_KEY@),
    )
}

fn load_retention(store: &SettingsStore) -> (result: Result<Option<u16>, ClipboardSettingsError>)
    ensures
        result == retention_from(store.value(RETENTION_DAYS_KEY@)),
{
    match store.read_setting(RETENTION_DAYS_KEY) {
        Err(error) => Err(ClipboardSettingsError::Storage(error)),
        Ok(None) => Ok(Some(30u16)),
        Ok(Some(value)) => {
            if str_equal(value.as_str(), "unlimited") {
                Ok(None)
            } else {
                match parse_unsigned_text(value.as_str(), 0xffff) {
                    Some(days) => {
                        assert(parse_unsigned(value@, 0xffff) == Some(days as int));
                        Ok(Some(days as u16))
                    },
                    None => Err(ClipboardSettingsError::InvalidRetentionDays),
                }
            }
        },
    }
}

fn load_max_items(store: &SettingsStore) -> (result: Result<u32, ClipboardSettingsError>)
    ensures
        result == max_items_from(store.value(MAX_ITEMS_KEY@)),
{
    match store.read_setting(MAX_ITEMS_KEY) {
        Err(error) => Err(ClipboardSettingsError::Storage(error)),
        Ok(None) => Ok(DEFAULT_MAX_ITEMS),
        Ok(Some(value)) => match parse_unsigned_text(value.as_str(), 0xffff_ffff) {
            Some(items) => Ok(items),
            None => Err(ClipboardSettingsError::InvalidMaxItems),
        },
    }
}

fn load_ignored_apps(store: &SettingsStore) -> (result: Result<Vec<String>, ClipboardSettingsError>)
    ensures
        match apps_from(store.value(IGNORED_APPS_KEY@)) {
            Ok(apps) => result matches Ok(parsed) && string_views(parsed@) == apps,
            Err(error) => result == Err::<Vec<String>, ClipboardSettingsError>(error),
        },
{
    match store.read_setting(IGNORED_APPS_KEY) {
        Err(error) => Err(ClipboardSettingsError::Storage(error)),
        Ok(None) => {
            let empty: Vec<String> = Vec::new();
            assert(string_views(empty@) =~= Seq::<Seq<char>>::empty());
            Ok(empty)
        },
        Ok(Some(value)) => parse_ignored_apps(value.as_str()),
    }
}

fn load_strategy(store: &SettingsStore) -> (result: Result<ClipboardHistoryReuseStrategy, ClipboardSettingsError>)
    ensures
        result == strategy_from(store.value(HISTORY_REUSE_STRATEGY_KEY@)),
{
    match store.read_setting(HISTORY_REUSE_STRATEGY_KEY) {
        Err(error) => Err(ClipboardSettingsError::Storage(error)),
        Ok(None) => Ok(ClipboardHistoryReuseStrategy::Promote),
        Ok(Some(value)) => ClipboardHistoryReuseStrategy::parse(value.as_str()),
    }
}

fn load_sensitive_rules(store: &SettingsStore) -> (result: Result<Vec<String>, ClipboardSettingsError>)
    ensures
        match rules_from(store.value(SENSITIVE_RULES_KEY@)) {
            Ok(rules) => result matches Ok(parsed) && string_views(parsed@) == rules,
            Err(error) => result == Err::<Vec<String>, ClipboardSettingsError>(error),
        },
{
    match store.read_setting(SENSITIVE_RULES_KEY) {
        Err(error) => Err(ClipboardSettingsError::Storage(error)),
        Ok(None) => {
            let empty: Vec<String> = Vec::new();
            assert(string_views(empty@) =~= Seq::<Seq<char>>::empty());
            Ok(empty)
        },
        Ok(Some(value)) => parse_sensitive_rules(value.as_str()),
    }
}

/// Loads the preferences, with defaults for missing values, and validates them.
pub fn load(store: &SettingsStore) -> (result: Result<ClipboardSettings, ClipboardSettingsError>)
    ensures
        match stored_settings(*store) {
            Ok(model) => result matches Ok(settings) && settings.model() == model,
            Err(error) => result == Err::<ClipboardSettings, ClipboardSettingsError>(error),
        },
{
    let retention_days = match load_retention(store) {
        Ok(days) => days,
        Err(error) => {
            return Err(error);
        },
    };
    let max_items = match load_max_items(store) {
        Ok(items) => items,
        Err(error) => {
            return Err(error);
        },
    };
    let ignored_apps = match load_ignored_apps(store) {
        Ok(apps) => apps,
        Err(error) => {
            return Err(error);
        },
    };
    let history_reuse_strategy = match load_strategy(store) {
        Ok(strategy) => strategy,
        Err(error) => {
            return Err(error);
        },
    };
    let sensitive_rules = match load_sensitive_rules(store) {
        Ok(rules) => rules,
        Err(error) => {
            return Err(error);
        },
    };
    let settings = ClipboardSettings {
        retention_days,
        max_items,
        ignored_apps,
        history_reuse_strategy,
        sensitive_rules,
    };
    match validate(&settings) {
        Ok(()) => Ok(settings),
        Err(error) => Err(error),
    }
}

/// The six keys are different texts.
proof fn lemma_keys_distinct()
    ensures
        MONITORING_ENABLED_KEY@.len() == 28,
        RETENTION_DAYS_KEY@.len() == 24,
        MAX_ITEMS_KEY@.len() == 19,
        IGNORED_APPS_KEY@.len() == 22,
        HISTORY_REUSE_STRATEGY_KEY@.len() == 32,
        SENSITIVE_RULES_KEY@.len() == 25,
{
    reveal_strlit("clipboard.monitoring_enabled");
    reveal_strlit("clipboard.retention_days");
    reveal_strlit("clipboard.max_items");
    reveal_strlit("clipboard.ignored_apps");
    reveal_strlit("clipboard.history_reuse_strategy");
    reveal_strlit("clipboard.sensitive_rules");
}

/// Whether `key` is one of the five preference keys.
pub open spec fn is_preference_key(key: Seq<char>) -> bool {
    ||| key == RETENTION_DAYS_KEY@
    ||| key == MAX_ITEMS_KEY@
    ||| key == IGNORED_APPS_KEY@
    ||| key == HISTORY_REUSE_STRATEGY_KEY@
    ||| key == SENSITIVE_RULES_KEY@
}

/// Whether `after` is `before` with the five preference values of
/// `settings` stored in their text forms.
pub open spec fn stores_preferences(before: SettingsStore, after: SettingsStore, settings: SettingsModel) -> bool {
    &&& after.value(RETENTION_DAYS_KEY@) == Some(retention_text(settings.retention_days))
    &&& after.value(MAX_ITEMS_KEY@) == Some(decimal(settings.max_items as nat))
    &&& after.value(IGNORED_APPS_KEY@) == Some(join_lines(settings.ignored_apps))
    &&& after.value(HISTORY_REUSE_STRATEGY_KEY@) == Some(strategy_name(settings.history_reuse_strategy))
    &&& after.value(SENSITIVE_RULES_KEY@) == Some(join_lines(settings.sensitive_rules))
    &&& forall|key: Seq<char>| !is_preference_key(key) ==> #[trigger] after.value(key) == before.value(key)
}

/// Validates the preferences and stores them.
pub fn save(store: &mut SettingsStore, settings: &ClipboardSettings) -> (result: Result<(), ClipboardSettingsError>)
    ensures
        match settings_error(settings.model()) {
            Some(error) => result == Err::<(), ClipboardSettingsError>(error) && forall|key: Seq<char>|
                #[trigger] final(store).value(key) == old(store).value(key),
            None => result is Ok && stores_preferences(*old(store), *final(store), settings.model()),
        },
{
    match validate(settings) {
        Ok(()) => {},
        Err(error) => {
            return Err(error);
        },
    }
    let retention = match settings.retention_days {
        Some(days) => render_decimal(days as u32),
        None => "unlimited".to_owned(),
    };
    assert(retention@ == retention_text(settings.retention_days));
    let max_items = render_decimal(settings.max_items);
    let ignored_apps = join_with_newlines(&settings.ignored_apps);
    let sensitive_rules = join_with_newlines(&settings.sensitive_rules);
    let strategy = settings.history_reuse_strategy.as_str().to_owned();
    proof {
        lemma_keys_distinct();
        assert(string_views(settings.ignored_apps@) =~= Seq::new(settings.ignored_apps@.len(), |i: int| settings.ignored_apps@[i]@));
        assert(string_views(settings.sensitive_rules@) =~= Seq::new(settings.sensitive_rules@.len(), |i: int| settings.sensitive_rules@[i]@));
    }
    store.write_setting(RETENTION_DAYS_KEY, retention);
    store.write_setting(MAX_ITEMS_KEY, max_items);
    store.write_setting(IGNORED_APPS_KEY, ignored_apps);
    store.write_setting(HISTORY_REUSE_STRATEGY_KEY, strategy);
    store.write_setting(SENSITIVE_RULES_KEY, sensitive_rules);
    Ok(())
}

/// The sorted set of a strictly sorted list is the list itself.
proof fn lemma_sorted_set_of_sorted(items: Seq<Seq<char>>)
    requires
        strictly_sorted(items),
    ensures
        sorted_set(items) == items,
{
    assert(is_sorted_set_of(items, items));
    let chosen = sorted_set(items);
    assert(is_sorted_set_of(chosen, items));
    lemma_sorted_same_elements(chosen, items);
}

/// Stored text of normalized process names parses back to the same names.
proof fn lemma_apps_text_roundtrip(apps: Seq<Seq<char>>)
    requires
        apps_ok(apps),
        strictly_sorted(apps),
        forall|i: int| 0 <= i < apps.len() ==> lower_ascii(#[trigger] apps[i]) == apps[i],
    ensures
        ignored_apps_result(join_lines(apps)) == Ok::<Seq<Seq<char>>, ClipboardSettingsError>(apps),
{
    let sep = separator(true);
    let text = join_lines(apps);
    let normalize = |p: Seq<char>| lower_ascii(trim(p));
    if apps.len() == 0 {
        assert(text =~= Seq::<char>::empty());
        assert(split_pieces(text, sep) == seq![Seq::<char>::empty()]);
        assert(trim(Seq::<char>::empty()) =~= Seq::<char>::empty());
        assert(lower_ascii(Seq::<char>::empty()) =~= Seq::<char>::empty());
        let mapped = split_pieces(text, sep).map_values(normalize);
        assert(mapped =~= seq![Seq::<char>::empty()]);
        assert(mapped.drop_last() =~= Seq::<Seq<char>>::empty());
        assert(mapped.last().len() == 0);
        assert(non_empty(mapped.drop_last()) == Seq::<Seq<char>>::empty());
        assert(app_candidates(text) == non_empty(mapped));
        assert(app_candidates(text) =~= Seq::<Seq<char>>::empty());
        assert(apps =~= Seq::<Seq<char>>::empty());
        lemma_sorted_set_of_sorted(apps);
    } else {
        assert forall|i: int, j: int| 0 <= i < apps.len() && 0 <= j < apps[i].len() implies !sep(
            #[trigger] apps[i][j],
        ) by {
            assert(is_safe_process_name_spec(apps[i]));
            assert(is_process_name_char(apps[i][j]));
        }
        lemma_split_join(apps, sep);
        assert forall|i: int| 0 <= i < apps.len() implies trim(#[trigger] apps[i]) == apps[i] by {
            let a = apps[i];
            assert(is_safe_process_name_spec(a));
            assert(is_process_name_char(a[0]));
            assert(is_process_name_char(a[a.len() - 1]));
            lemma_trim_of_trimmed(a);
        }
        let mapped = apps.map_values(normalize);
        assert(mapped =~= apps);
        assert forall|i: int| 0 <= i < apps.len() implies #[trigger] apps[i].len() > 0 by {
            assert(is_safe_process_name_spec(apps[i]));
        }
        lemma_non_empty_keeps_all(apps);
        assert(app_candidates(text) == apps);
        lemma_sorted_set_of_sorted(apps);
    }
}

/// Stored text of trimmed single-line rules parses back to the same rules.
proof fn lemma_rules_text_roundtrip(rules: Seq<Seq<char>>)
    requires
        rules_ok(rules),
        forall|i: int| 0 <= i < rules.len() ==> trim(#[trigger] rules[i]) == rules[i],
        forall|i: int, j: int| 0 <= i < rules.len() && 0 <= j < rules[i].len() ==> #[trigger] rules[i][j] != '\n',
    ensures
        sensitive_rules_result(join_lines(rules)) == Ok::<Seq<Seq<char>>, ClipboardSettingsError>(rules),
{
    let sep = separator(false);
    let text = join_lines(rules);
    let normalize = |p: Seq<char>| trim(p);
    if rules.len() == 0 {
        assert(text =~= Seq::<char>::empty());
        assert(split_pieces(text, sep) == seq![Seq::<char>::empty()]);
        assert(trim(Seq::<char>::empty()) =~= Seq::<char>::empty());
        let mapped = split_pieces(text, sep).map_values(normalize);
        assert(mapped =~= seq![Seq::<char>::empty()]);
        assert(mapped.drop_last() =~= Seq::<Seq<char>>::empty());
        assert(mapped.last().len() == 0);
        assert(non_empty(mapped.drop_last()) == Seq::<Seq<char>>::empty());
        assert(rule_candidates(text) == non_empty(mapped));
        assert(rule_candidates(text) =~= Seq::<Seq<char>>::empty());
        assert(rules =~= Seq::<Seq<char>>::empty());
    } else {
        assert forall|i: int, j: int| 0 <= i < rules.len() && 0 <= j < rules[i].len() implies !sep(
            #[trigger] rules[i][j],
        ) by {
            assert(rules[i][j] != '\n');
        }
        lemma_split_join(rules, sep);
        let mapped = rules.map_values(normalize);
        assert(mapped =~= rules);
        assert forall|i: int| 0 <= i < rules.len() implies #[trigger] rules[i].len() > 0 by {
            assert(rule_length_ok(rules[i]));
        }
        lemma_non_empty_keeps_all(rules);
        assert(rule_candidates(text) == rules);
    }
}

/// Saved preferences load back unchanged: for valid preferences whose
/// process names are sorted, distinct and lower case and whose rules are
/// trimmed single lines (the forms the parsers produce), the five stored
/// texts load as the same preferences.
pub proof fn lemma_settings_roundtrip(settings: SettingsModel)
    requires
        settings_error(settings) is None,
        strictly_sorted(settings.ignored_apps),
        forall|i: int|
            0 <= i < settings.ignored_apps.len() ==> lower_ascii(#[trigger] settings.ignored_apps[i])
                == settings.ignored_apps[i],
        forall|i: int|
            0 <= i < settings.sensitive_rules.len() ==> trim(#[trigger] settings.sensitive_rules[i])
                == settings.sensitive_rules[i],
        forall|i: int, j: int|
            0 <= i < settings.sensitive_rules.len() && 0 <= j < settings.sensitive_rules[i].len()
                ==> #[trigger] settings.sensitive_rules[i][j] != '\n',
    ensures
        load_from_values(
            Some(retention_text(settings.retention_days)),
            Some(decimal(settings.max_items as nat)),
            Some(join_lines(settings.ignored_apps)),
            Some(strategy_name(settings.history_reuse_strategy)),
            Some(join_lines(settings.sensitive_rules)),
        ) == Ok::<SettingsModel, ClipboardSettingsError>(settings),
{
    reveal_strlit("unlimited");
    reveal_strlit("promote");
    reveal_strlit("keep");
    match settings.retention_days {
        Some(days) => {
            lemma_parse_decimal(days as nat, 0xffff);
            lemma_decimal_roundtrip(days as nat);
            assert(is_digit(decimal(days as nat)[0]));
            assert(decimal(days as nat) != "unlimited"@);
        },
        None => {},
    }
    lemma_parse_decimal(settings.max_items as nat, 0xffff_ffff);
    assert("keep"@.len() != "promote"@.len());
    lemma_apps_text_roundtrip(settings.ignored_apps);
    lemma_rules_text_roundtrip(settings.sensitive_rules);
}

} // verus!
