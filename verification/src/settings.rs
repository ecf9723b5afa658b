//! User settings: defaults, validation, normalization and recovery.

use crate::text;
use crate::text::{chars_of, trim, upper_ascii};
use crate::uuid_text;
use crate::uuid_text::{hyphenated_text, is_nil_uuid, parse_uuid_text, random_uuid};
use vstd::prelude::*;

verus! {

/// The number of symbols in a shared code.
pub const SHARED_CODE_LENGTH: usize = 26;

/// The length of a run through the alphabet that makes a code conspicuous.
pub const OBVIOUS_SEQUENCE_LENGTH: usize = 8;

/// The fewest different symbols of a strong code.
pub const MIN_DISTINCT_SYMBOLS: usize = 10;

/// The largest item size that can be configured (1000 MiB).
pub const MAX_ITEM_BYTES: u64 = 1_048_576_000;

/// The lowest port that can be configured.
pub const MIN_LISTEN_PORT: u16 = 1024;

/// The longest polling interval that can be configured.
pub const MAX_POLL_INTERVAL_MS: u64 = 60_000;

/// How often a pairing key is drawn anew for being weak.
pub const MAX_KEY_DRAWS: u32 = 100_000;

/// Why settings are not acceptable.
#[derive(Debug, Clone, Copy, PartialEq, Eq, Structural)]
pub enum SettingsValidationError {
    LegacySharedCode,
    InvalidSharedCode,
    WeakSharedCode,
    InvalidDeviceId,
    InvalidListenPort,
    InvalidMaxItemBytes,
    InvalidPollInterval,
}

impl SettingsValidationError {
    /// What to tell the user.
    pub open spec fn spec_message(self) -> Seq<char> {
        match self {
            SettingsValidationError::LegacySharedCode => {
                "legacy 6-digit shared code requires re-pairing with a new 26-character code"@
            },
            SettingsValidationError::InvalidSharedCode => {
                "shared code must contain exactly 26 Base32 characters"@
            },
            SettingsValidationError::WeakSharedCode => {
                "shared code is too weak; use an application-generated random code"@
            },
            SettingsValidationError::InvalidDeviceId => "device_id must be a non-nil UUID"@,
            SettingsValidationError::InvalidListenPort => {
                "listen_port must be between 1024 and 65535"@
            },
            SettingsValidationError::InvalidMaxItemBytes => {
                "max_item_bytes must be between 1 and 1048576000"@
            },
            SettingsValidationError::InvalidPollInterval => {
                "poll_interval_ms must be between 1 and 60000"@
            },
        }
    }

    /// What to tell the user.
    pub fn message(&self) -> (text: &'static str)
        ensures
            text@ == self.spec_message(),
    {
        match self {
            SettingsValidationError::LegacySharedCode => {
                "legacy 6-digit shared code requires re-pairing with a new 26-character code"
            },
            SettingsValidationError::InvalidSharedCode => {
                "shared code must contain exactly 26 Base32 characters"
            },
            SettingsValidationError::WeakSharedCode => {
                "shared code is too weak; use an application-generated random code"
            },
            SettingsValidationError::InvalidDeviceId => "device_id must be a non-nil UUID",
            SettingsValidationError::InvalidListenPort => {
                "listen_port must be between 1024 and 65535"
            },
            SettingsValidationError::InvalidMaxItemBytes => {
                "max_item_bytes must be between 1 and 1048576000"
            },
            SettingsValidationError::InvalidPollInterval => {
                "poll_interval_ms must be between 1 and 60000"
            },
        }
    }
}

/// Why stored settings could not be used.
#[derive(Debug, Clone, Copy, PartialEq, Eq, Structural)]
pub enum SettingsError {
    /// There is no settings file.
    NotFound,
    /// The file could not be read or written.
    Io,
    /// The file does not hold settings.
    Corrupt,
    /// The file holds settings that are not acceptable.
    Validation(SettingsValidationError),
}

impl SettingsError {
    /// Tells whether the stored code is a legacy one, which is replaced rather than refused.
    pub fn is_legacy_shared_code(&self) -> (legacy: bool)
        ensures
            legacy == (*self == SettingsError::Validation(
                SettingsValidationError::LegacySharedCode,
            )),
    {
        match self {
            SettingsError::Validation(SettingsValidationError::LegacySharedCode) => true,
            _ => false,
        }
    }
}

/// Bounds on the contents that are shared.
#[derive(Debug, PartialEq, Eq)]
pub struct SizeLimits {
    /// The largest size of one clipboard item in bytes, whatever its kind.
    pub max_item_bytes: u64,
}

impl Default for SizeLimits {
    fn default() -> (limits: Self)
        ensures
            limits.max_item_bytes == 262_144,
    {
        SizeLimits { max_item_bytes: 262_144 }
    }
}

impl Clone for SizeLimits {
    fn clone(&self) -> (copy: Self)
        ensures
            copy == *self,
    {
        SizeLimits { max_item_bytes: self.max_item_bytes }
    }
}

/// How this device takes part in synchronization.
#[derive(Debug, PartialEq, Eq)]
pub struct SyncConfig {
    pub device_id: String,
    pub shared_code: String,
    pub enabled: bool,
    pub local_ip: String,
    pub listen_port: u16,
    pub poll_interval_ms: u64,
}

impl Clone for SyncConfig {
    fn clone(&self) -> (copy: Self)
        ensures
            copy == *self,
    {
        SyncConfig {
            device_id: self.device_id.clone(),
            shared_code: self.shared_code.clone(),
            enabled: self.enabled,
            local_ip: self.local_ip.clone(),
            listen_port: self.listen_port,
            poll_interval_ms: self.poll_interval_ms,
        }
    }
}

impl SyncConfig {
    /// The defaults for a device with the given identity.
    pub fn with_identity(device_id: String, shared_code: String) -> (config: Self)
        ensures
            config.device_id == device_id,
            config.shared_code == shared_code,
            config.enabled,
            config.local_ip@ == Seq::<char>::empty(),
            config.listen_port == 32910,
            config.poll_interval_ms == 900,
    {
        SyncConfig {
            device_id,
            shared_code,
            enabled: true,
            local_ip: String::new(),
            listen_port: 32910,
            poll_interval_ms: 900,
        }
    }
}

/// Whether traffic is encrypted.
#[derive(Debug, PartialEq, Eq)]
pub struct SecurityConfig {
    pub encryption_enabled: bool,
}

impl Default for SecurityConfig {
    fn default() -> (config: Self)
        ensures
            config.encryption_enabled,
    {
        SecurityConfig { encryption_enabled: true }
    }
}

impl Clone for SecurityConfig {
    fn clone(&self) -> (copy: Self)
        ensures
            copy == *self,
    {
        SecurityConfig { encryption_enabled: self.encryption_enabled }
    }
}

/// Preferences of the user interface.
#[derive(Debug, PartialEq, Eq)]
pub struct UiConfig {
    /// The language: empty, `auto`, `zh-CN` or `en-US`.
    pub language: String,
    pub launch_at_login: bool,
}

impl Default for UiConfig {
    fn default() -> (config: Self)
        ensures
            config.language@ == "auto"@,
            !config.launch_at_login,
    {
        UiConfig { language: "auto".to_owned(), launch_at_login: false }
    }
}

impl Clone for UiConfig {
    fn clone(&self) -> (copy: Self)
        ensures
            copy == *self,
    {
        UiConfig { language: self.language.clone(), launch_at_login: self.launch_at_login }
    }
}

/// All settings.
#[derive(Debug, PartialEq, Eq)]
pub struct Settings {
    pub limits: SizeLimits,
    pub sync: SyncConfig,
    pub security: SecurityConfig,
    pub ui: UiConfig,
}

impl Clone for Settings {
    fn clone(&self) -> (copy: Self)
        ensures
            copy == *self,
    {
        Settings {
            limits: self.limits.clone(),
            sync: self.sync.clone(),
            security: self.security.clone(),
            ui: self.ui.clone(),
        }
    }
}

/// The settings that the user may edit.
///
/// What the application owns (the device identifier, the port, the polling
/// interval and the security switches) is absent, so that a stale form cannot
/// overwrite it.
#[derive(Debug, PartialEq, Eq)]
pub struct SettingsUpdate {
    pub max_item_bytes: u64,
    pub shared_code: String,
    pub local_ip: String,
    pub language: String,
    pub launch_at_login: bool,
}

/// What was done to stored settings that could not be used as they were.
#[derive(Debug, Clone, Copy, PartialEq, Eq, Structural)]
pub enum SettingsNoticeKind {
    LegacyPairingMigrated,
    InvalidSettingsRecovered,
}

/// A notice to the user that stored settings were replaced.
#[derive(Debug, PartialEq, Eq)]
pub struct SettingsNotice {
    pub kind: SettingsNoticeKind,
    pub backup_file: String,
}

impl Clone for SettingsNotice {
    fn clone(&self) -> (copy: Self)
        ensures
            copy == *self,
    {
        SettingsNotice { kind: self.kind, backup_file: self.backup_file.clone() }
    }
}

/// Settings as plain values.
#[verifier::ext_equal]
pub struct SettingsView {
    pub max_item_bytes: u64,
    pub device_id: Seq<char>,
    pub shared_code: Seq<char>,
    pub enabled: bool,
    pub local_ip: Seq<char>,
    pub listen_port: u16,
    pub poll_interval_ms: u64,
    pub encryption_enabled: bool,
    pub language: Seq<char>,
    pub launch_at_login: bool,
}

impl View for Settings {
    type V = SettingsView;

    open spec fn view(&self) -> SettingsView {
        SettingsView {
            max_item_bytes: self.limits.max_item_bytes,
            device_id: self.sync.device_id@,
            shared_code: self.sync.shared_code@,
            enabled: self.sync.enabled,
            local_ip: self.sync.local_ip@,
            listen_port: self.sync.listen_port,
            poll_interval_ms: self.sync.poll_interval_ms,
            encryption_enabled: self.security.encryption_enabled,
            language: self.ui.language@,
            launch_at_login: self.ui.launch_at_login,
        }
    }
}

/// The place of a symbol in the alphabet of shared codes: the letters `A` to
/// `Z` without `I` and `O`, then the digits `2` to `9`.
pub open spec fn code_index(c: char) -> Option<int> {
    if 'A' <= c <= 'H' {
        Some(c as int - 'A' as int)
    } else if 'J' <= c <= 'N' {
        Some(c as int - 'J' as int + 8)
    } else if 'P' <= c <= 'Z' {
        Some(c as int - 'P' as int + 13)
    } else if '2' <= c <= '9' {
        Some(c as int - '2' as int + 24)
    } else {
        None
    }
}

/// The symbol at a place of the alphabet.
pub open spec fn symbol_at(index: u8) -> char {
    if index < 8 {
        ('A' as int + index) as char
    } else if index < 13 {
        ('J' as int + index - 8) as char
    } else if index < 24 {
        ('P' as int + index - 13) as char
    } else {
        ('2' as int + index - 24) as char
    }
}

/// Places of as many symbols as a code has.
pub open spec fn is_draw(draw: Seq<u8>) -> bool {
    draw.len() == SHARED_CODE_LENGTH && forall|i: int|
        0 <= i < draw.len() ==> #[trigger] draw[i] < 32
}

/// The code that a draw spells.
pub open spec fn code_of(draw: Seq<u8>) -> Seq<char> {
    draw.map_values(|index: u8| symbol_at(index))
}

/// `s` is made of symbols of the alphabet.
pub open spec fn all_symbols(s: Seq<char>) -> bool {
    forall|i: int| 0 <= i < s.len() ==> code_index(#[trigger] s[i]) is Some
}

/// `s` has the form of a shared code.
pub open spec fn is_code(s: Seq<char>) -> bool {
    s.len() == SHARED_CODE_LENGTH && all_symbols(s)
}

/// `s` repeats its first `p` symbols.
pub open spec fn has_period(s: Seq<char>, p: int) -> bool {
    forall|i: int| p <= i < s.len() ==> #[trigger] s[i] == s[i % p]
}

/// The symbol behind `s[j]` stands `step` places further in the alphabet,
/// which goes on from its last symbol to its first.
pub open spec fn steps(s: Seq<char>, j: int, step: int) -> bool {
    code_index(s[j + 1])->Some_0 == (code_index(s[j])->Some_0 + step) % 32
}

/// Eight symbols from `from` on stand `step` places apart in the alphabet.
pub open spec fn is_run(s: Seq<char>, from: int, step: int) -> bool {
    forall|j: int| from <= j < from + OBVIOUS_SEQUENCE_LENGTH - 1 ==> #[trigger] steps(s, j, step)
}

/// `s` holds eight symbols in the order of the alphabet, forwards or backwards.
pub open spec fn has_run(s: Seq<char>) -> bool {
    exists|from: int|
        0 <= from <= s.len() - OBVIOUS_SEQUENCE_LENGTH && (#[trigger] is_run(s, from, 1)
            || is_run(s, from, 31))
}

/// `s` shows none of the conspicuous patterns of codes that people choose: few
/// different symbols, a repeated group, a run through the alphabet.
pub open spec fn is_strong(s: Seq<char>) -> bool {
    &&& all_symbols(s)
    &&& s.to_set().len() >= MIN_DISTINCT_SYMBOLS
    &&& forall|p: int| 1 <= p < s.len() ==> !#[trigger] has_period(s, p)
    &&& !has_run(s)
}

/// What people put between the symbols of a code for legibility.
pub open spec fn is_code_separator(c: char) -> bool {
    c == ' ' || c == '\t' || c == '\n' || c == '\x0c' || c == '\r' || c == '-'
}

/// `s` without separators and in upper case.
pub open spec fn canonical_code(s: Seq<char>) -> Seq<char> {
    s.filter(|c: char| !is_code_separator(c)).map_values(|c: char| text::ascii_upper(c))
}

/// `s` is a code of the time when codes were six digits.
pub open spec fn is_legacy_code(s: Seq<char>) -> bool {
    s.len() == 6 && forall|i: int| 0 <= i < s.len() ==> '0' <= #[trigger] s[i] <= '9'
}

/// The device identifier that normalization settles on, `fresh` where none is set.
pub open spec fn normal_device_id(device_id: Seq<char>, fresh: Seq<u8>) -> Option<Seq<char>> {
    let id = text::trimmed(device_id);
    if id.len() == 0 {
        Some(uuid_text::hyphenated(fresh))
    } else {
        match uuid_text::uuid_bytes(id) {
            Some(b) => if uuid_text::is_nil(b) {
                None
            } else {
                Some(uuid_text::hyphenated(b))
            },
            None => None,
        }
    }
}

/// What normalization makes of settings, where `fresh` is the identifier for a
/// device that has none yet.
pub open spec fn normal_settings(s: SettingsView, fresh: Seq<u8>) -> Result<
    SettingsView,
    SettingsValidationError,
> {
    let code = canonical_code(s.shared_code);
    let device_id = normal_device_id(s.device_id, fresh);
    if is_legacy_code(code) {
        Err(SettingsValidationError::LegacySharedCode)
    } else if !is_code(code) {
        Err(SettingsValidationError::InvalidSharedCode)
    } else if !is_strong(code) {
        Err(SettingsValidationError::WeakSharedCode)
    } else if device_id is None {
        Err(SettingsValidationError::InvalidDeviceId)
    } else if s.listen_port < MIN_LISTEN_PORT {
        Err(SettingsValidationError::InvalidListenPort)
    } else if s.poll_interval_ms == 0 || s.poll_interval_ms > MAX_POLL_INTERVAL_MS {
        Err(SettingsValidationError::InvalidPollInterval)
    } else if s.max_item_bytes == 0 || s.max_item_bytes > MAX_ITEM_BYTES {
        Err(SettingsValidationError::InvalidMaxItemBytes)
    } else {
        Ok(
            SettingsView {
                shared_code: code,
                device_id: device_id->Some_0,
                local_ip: text::trimmed(s.local_ip),
                encryption_enabled: true,
                language: if text::trimmed(s.language).len() == 0 {
                    "auto"@
                } else {
                    text::trimmed(s.language)
                },
                ..s
            },
        )
    }
}

/// Settings after an update by the user, before normalization.
pub open spec fn updated_settings(s: SettingsView, update: SettingsUpdate) -> SettingsView {
    SettingsView {
        max_item_bytes: update.max_item_bytes,
        shared_code: update.shared_code@,
        local_ip: update.local_ip@,
        language: update.language@,
        launch_at_login: update.launch_at_login,
        enabled: true,
        encryption_enabled: true,
        ..s
    }
}

/// The settings of a new device.
pub open spec fn default_settings(device_id: Seq<char>, shared_code: Seq<char>) -> SettingsView {
    SettingsView {
        max_item_bytes: 262_144,
        device_id,
        shared_code,
        enabled: true,
        local_ip: Seq::empty(),
        listen_port: 32910,
        poll_interval_ms: 900,
        encryption_enabled: true,
        language: "auto"@,
        launch_at_login: false,
    }
}

/// The settings of some new device, with an identity of its own.
pub open spec fn is_new_device(s: SettingsView) -> bool {
    exists|b: Seq<u8>, code: Seq<char>|
        is_fresh_id(b) && is_code(code) && is_strong(code) && s == #[trigger] default_settings(
            uuid_text::hyphenated(b),
            code,
        )
}

/// What reading the settings file gave.
pub enum StoredSettings {
    /// There is no such file.
    Missing,
    /// The file could not be read.
    Unreadable,
    /// The file does not hold settings.
    NotSettings,
    /// The file holds these settings.
    Value(Settings),
}

/// What loading makes of the settings file.
pub open spec fn loaded_settings(stored: StoredSettings, fresh: Seq<u8>) -> Result<
    SettingsView,
    SettingsError,
> {
    match stored {
        StoredSettings::Missing => Err(SettingsError::NotFound),
        StoredSettings::Unreadable => Err(SettingsError::Io),
        StoredSettings::NotSettings => Err(SettingsError::Corrupt),
        StoredSettings::Value(value) => match normal_settings(value@, fresh) {
            Ok(s) => Ok(s),
            Err(e) => Err(SettingsError::Validation(e)),
        },
    }
}

/// What migration makes of a settings file with a legacy code.
pub open spec fn migrated_settings(
    stored: StoredSettings,
    key: Seq<char>,
    fresh: Seq<u8>,
) -> Result<SettingsView, SettingsError> {
    match stored {
        StoredSettings::Missing => Err(SettingsError::NotFound),
        StoredSettings::Unreadable => Err(SettingsError::Io),
        StoredSettings::NotSettings => Err(SettingsError::Corrupt),
        StoredSettings::Value(value) => if !is_legacy_code(canonical_code(value@.shared_code)) {
            Err(SettingsError::Validation(SettingsValidationError::InvalidSharedCode))
        } else {
            match normal_settings(SettingsView { shared_code: key, ..value@ }, fresh) {
                Ok(s) => Ok(s),
                Err(e) => Err(SettingsError::Validation(e)),
            }
        },
    }
}

/// Settings whose code is one of the earlier, short ones.
pub open spec fn holds_legacy_code(stored: StoredSettings) -> bool {
    stored matches StoredSettings::Value(value) && is_legacy_code(
        canonical_code(value@.shared_code),
    )
}

/// The settings, or the error, that are expected.
pub open spec fn settings_are(
    result: Result<Settings, SettingsError>,
    expected: Result<SettingsView, SettingsError>,
) -> bool {
    match result {
        Ok(s) => expected == Ok::<_, SettingsError>(s@),
        Err(e) => expected == Err::<SettingsView, _>(e),
    }
}

/// A random identifier for a device that has none.
pub open spec fn is_fresh_id(b: Seq<u8>) -> bool {
    b.len() == 16 && !uuid_text::is_nil(b)
}

/// The place of `c` in the alphabet of shared codes.
fn code_index_of(c: char) -> (index: Option<u8>)
    ensures
        match index {
            Some(i) => code_index(c) == Some(i as int),
            None => code_index(c) is None,
        },
{
    if 'A' <= c && c <= 'H' {
        Some(c as u8 - 65)
    } else if 'J' <= c && c <= 'N' {
        Some(c as u8 - 74 + 8)
    } else if 'P' <= c && c <= 'Z' {
        Some(c as u8 - 80 + 13)
    } else if '2' <= c && c <= '9' {
        Some(c as u8 - 50 + 24)
    } else {
        None
    }
}

/// The symbol at a place of the alphabet.
fn code_symbol(index: u8) -> (c: char)
    requires
        index < 32,
    ensures
        c == symbol_at(index),
        code_index(c) == Some(index as int),
{
    if index < 8 {
        (65 + index) as char
    } else if index < 13 {
        (74 + (index - 8)) as char
    } else if index < 24 {
        (80 + (index - 13)) as char
    } else {
        (50 + (index - 24)) as char
    }
}

fn all_symbols_of(chars: &Vec<char>) -> (all: bool)
    ensures
        all == all_symbols(chars@),
{
    let mut i: usize = 0;
    while i < chars.len()
        invariant
            i <= chars.len(),
            forall|j: int| 0 <= j < i ==> code_index(#[trigger] chars@[j]) is Some,
        decreases chars.len() - i,
    {
        if code_index_of(chars[i]).is_none() {
            return false;
        }
        i = i + 1;
    }
    true
}

/// Tells whether `value` has the form of a shared code.
pub fn is_valid_shared_code(value: &str) -> (valid: bool)
    ensures
        valid == is_code(value@),
{
    let chars = chars_of(value);
    chars.len() == SHARED_CODE_LENGTH && all_symbols_of(&chars)
}

/// Drops separators and takes the rest in upper case.
pub fn canonicalize_shared_code(value: &str) -> (code: String)
    ensures
        code@ == canonical_code(value@),
{
    let chars = chars_of(value);
    let mut code: String = String::new();
    let mut i: usize = 0;
    proof {
        reveal(Seq::filter);
        assert(code@ =~= canonical_code(chars@.take(0)));
    }
    while i < chars.len()
        invariant
            i <= chars.len(),
            code@ == canonical_code(chars@.take(i as int)),
        decreases chars.len() - i,
    {
        let c = chars[i];
        proof {
            let keep = |c: char| !is_code_separator(c);
            chars@.take(i as int).lemma_filter_push(c, keep);
            assert(chars@.take(i + 1) =~= chars@.take(i as int).push(c));
        }
        if !(c == ' ' || c == '\t' || c == '\n' || c == '\x0c' || c == '\r' || c == '-') {
            code.push(upper_ascii(c));
        }
        i = i + 1;
        assert(code@ =~= canonical_code(chars@.take(i as int)));
    }
    assert(chars@.take(i as int) =~= value@);
    code
}

fn is_legacy_code_text(code: &str) -> (legacy: bool)
    ensures
        legacy == is_legacy_code(code@),
{
    let chars = chars_of(code);
    if chars.len() != 6 {
        return false;
    }
    let mut i: usize = 0;
    while i < chars.len()
        invariant
            i <= chars.len(),
            chars@ == code@,
            forall|j: int| 0 <= j < i ==> '0' <= #[trigger] chars@[j] <= '9',
        decreases chars.len() - i,
    {
        if chars[i] < '0' || chars[i] > '9' {
            return false;
        }
        i = i + 1;
    }
    true
}

/// Counts the different symbols of a code.
fn distinct_symbols(chars: &Vec<char>) -> (count: usize)
    ensures
        count == chars@.to_set().len(),
{
    let mut seen: Vec<char> = Vec::new();
    let mut i: usize = 0;
    while i < chars.len()
        invariant
            i <= chars.len(),
            seen@.no_duplicates(),
            seen@.to_set() == chars@.take(i as int).to_set(),
        decreases chars.len() - i,
    {
        let mut k: usize = 0;
        while k < seen.len() && seen[k] != chars[i]
            invariant
                i < chars.len(),
                k <= seen.len(),
                forall|j: int| 0 <= j < k ==> seen@[j] != chars@[i as int],
            decreases seen.len() - k,
        {
            k = k + 1;
        }
        proof {
            assert(chars@.take(i + 1) =~= chars@.take(i as int).push(chars@[i as int]));
            chars@.take(i as int).lemma_push_to_set_commute(chars@[i as int]);
            seen@.lemma_push_to_set_commute(chars@[i as int]);
        }
        if k == seen.len() {
            seen.push(chars[i]);
        } else {
            assert(seen@.to_set().contains(seen@[k as int]));
            assert(seen@.to_set().insert(seen@[k as int]) =~= seen@.to_set());
        }
        i = i + 1;
    }
    proof {
        assert(chars@.take(i as int) =~= chars@);
        seen@.unique_seq_to_set();
    }
    seen.len()
}

fn has_period_of(chars: &Vec<char>, p: usize) -> (periodic: bool)
    requires
        1 <= p,
    ensures
        periodic == has_period(chars@, p as int),
{
    let mut i: usize = p;
    while i < chars.len()
        invariant
            1 <= p <= i,
            forall|j: int| p <= j < i ==> #[trigger] chars@[j] == chars@[j % p as int],
        decreases chars.len() - i,
    {
        if chars[i] != chars[i % p] {
            return false;
        }
        i = i + 1;
    }
    true
}

fn is_run_of(chars: &Vec<char>, from: usize, step: u8) -> (run: bool)
    requires
        all_symbols(chars@),
        from + OBVIOUS_SEQUENCE_LENGTH <= chars.len(),
        step < 32,
    ensures
        run == is_run(chars@, from as int, step as int),
{
    let mut j: usize = from;
    while j < from + OBVIOUS_SEQUENCE_LENGTH - 1
        invariant
            all_symbols(chars@),
            from <= j <= from + OBVIOUS_SEQUENCE_LENGTH - 1,
            from + OBVIOUS_SEQUENCE_LENGTH <= chars.len(),
            step < 32,
            forall|k: int| from <= k < j ==> #[trigger] steps(chars@, k, step as int),
        decreases from + OBVIOUS_SEQUENCE_LENGTH - j,
    {
        let here = code_index_of(chars[j]);
        let next = code_index_of(chars[j + 1]);
        assert(code_index(chars@[j as int]) is Some);
        assert(code_index(chars@[j + 1]) is Some);
        if let (Some(a), Some(b)) = (here, next) {
            if b != (a + step) % 32 {
                assert(!steps(chars@, j as int, step as int));
                return false;
            }
        }
        j = j + 1;
    }
    true
}

/// Tells whether a code holds a run through the alphabet.
fn has_obvious_alphabet_sequence(chars: &Vec<char>) -> (found: bool)
    requires
        all_symbols(chars@),
    ensures
        found == has_run(chars@),
{
    if chars.len() < OBVIOUS_SEQUENCE_LENGTH {
        return false;
    }
    let mut from: usize = 0;
    while from <= chars.len() - OBVIOUS_SEQUENCE_LENGTH
        invariant
            all_symbols(chars@),
            OBVIOUS_SEQUENCE_LENGTH <= chars.len(),
            from <= chars.len() - OBVIOUS_SEQUENCE_LENGTH + 1,
            forall|k: int| 0 <= k < from ==> !#[trigger] is_run(chars@, k, 1),
            forall|k: int| 0 <= k < from ==> !#[trigger] is_run(chars@, k, 31),
        decreases chars.len() - from,
    {
        let up = is_run_of(chars, from, 1);
        let down = is_run_of(chars, from, 31);
        if up || down {
            assert(is_run(chars@, from as int, 1) || is_run(chars@, from as int, 31));
            return true;
        }
        assert(!is_run(chars@, from as int, 1) && !is_run(chars@, from as int, 31));
        from = from + 1;
    }
    false
}

/// Tells whether a code shows none of the conspicuous patterns.
///
/// This is no estimate of entropy: generated codes are unpredictable because
/// their symbols are drawn at random.
pub fn is_strong_shared_code(value: &str) -> (strong: bool)
    ensures
        strong == is_strong(value@),
{
    let chars = chars_of(value);
    if !all_symbols_of(&chars) {
        return false;
    }
    if distinct_symbols(&chars) < MIN_DISTINCT_SYMBOLS {
        return false;
    }
    let mut p: usize = 1;
    while p < chars.len()
        invariant
            1 <= p,
            chars@ == value@,
            forall|q: int| 1 <= q < p ==> !#[trigger] has_period(chars@, q),
        decreases chars.len() - p,
    {
        if has_period_of(&chars, p) {
            assert(has_period(value@, p as int));
            return false;
        }
        p = p + 1;
    }
    !has_obvious_alphabet_sequence(&chars)
}

/// `rand::rngs::OsRng` with `Rng::gen_range` draws an index below `bound`.
#[verifier::external_body]
fn random_index(bound: u8) -> (index: u8)
    requires
        0 < bound,
    ensures
        index < bound,
{
    rand::Rng::gen_range(&mut rand::rngs::OsRng, 0..bound)
}

/// Draws the places of the symbols of a code.
fn draw_places() -> (draw: Vec<u8>)
    ensures
        is_draw(draw@),
{
    let mut draw: Vec<u8> = Vec::new();
    while draw.len() < SHARED_CODE_LENGTH
        invariant
            draw.len() <= SHARED_CODE_LENGTH,
            forall|i: int| 0 <= i < draw@.len() ==> #[trigger] draw@[i] < 32,
        decreases SHARED_CODE_LENGTH - draw.len(),
    {
        draw.push(random_index(32));
    }
    draw
}

/// The pairing key that a draw spells, unless it is weak.
pub fn pairing_key_of(draw: &Vec<u8>) -> (key: Option<String>)
    requires
        is_draw(draw@),
    ensures
        match key {
            Some(k) => k@ == code_of(draw@) && is_code(k@) && is_strong(k@),
            None => !is_strong(code_of(draw@)),
        },
{
    let mut code: String = String::new();
    let mut i: usize = 0;
    while i < draw.len()
        invariant
            i <= draw.len(),
            is_draw(draw@),
            code@ == code_of(draw@.take(i as int)),
            all_symbols(code@),
        decreases draw.len() - i,
    {
        assert(draw@[i as int] < 32);
        code.push(code_symbol(draw[i]));
        i = i + 1;
        assert(code@ =~= code_of(draw@.take(i as int)));
    }
    assert(draw@.take(i as int) =~= draw@);
    if is_strong_shared_code(&code) {
        Some(code)
    } else {
        None
    }
}

/// A place that may follow in a draw whose symbols are all different and of which no two
/// neighbours are neighbours in the alphabet.
pub open spec fn is_free(draw: Seq<u8>, place: u8) -> bool {
    &&& place < 32
    &&& !draw.contains(place)
    &&& draw.len() > 0 ==> place != (draw.last() + 1) % 32 && place != (draw.last() + 31) % 32
}

/// A draw whose symbols are all different and of which no two neighbours are neighbours in
/// the alphabet.
pub open spec fn is_spread(draw: Seq<u8>) -> bool {
    forall|i: int| 0 <= i < draw.len() ==> #[trigger] is_free(draw.take(i), draw[i])
}

/// The places that may follow in a spread draw, in order. There are some as long as the
/// draw is shorter than a code.
pub fn free_places(draw: &Vec<u8>) -> (places: Vec<u8>)
    requires
        draw@.len() < SHARED_CODE_LENGTH,
        forall|i: int| 0 <= i < draw@.len() ==> #[trigger] draw@[i] < 32,
    ensures
        0 < places@.len() <= 32,
        forall|place: u8| places@.contains(place) <==> is_free(draw@, place),
        forall|i: int, j: int| 0 <= i < j < places@.len() ==> places@[i] < places@[j],
{
    let mut places: Vec<u8> = Vec::new();
    let mut place: u8 = 0;
    while place < 32
        invariant
            place <= 32,
            draw@.len() < SHARED_CODE_LENGTH,
            forall|i: int| 0 <= i < draw@.len() ==> #[trigger] draw@[i] < 32,
            places@.len() <= place,
            forall|v: u8| places@.contains(v) <==> v < place && is_free(draw@, v),
            forall|i: int| 0 <= i < places@.len() ==> #[trigger] places@[i] < place,
            forall|i: int, j: int| 0 <= i < j < places@.len() ==> places@[i] < places@[j],
        decreases 32 - place,
    {
        let mut taken = false;
        let mut i: usize = 0;
        while i < draw.len()
            invariant
                i <= draw.len(),
                taken == draw@.take(i as int).contains(place),
            decreases draw.len() - i,
        {
            let ghost before = draw@.take(i as int);
            assert(draw@.take(i + 1) =~= before.push(draw@[i as int]));
            proof {
                if before.contains(place) {
                    let k = before.index_of(place);
                    assert(before.push(draw@[i as int])[k] == place);
                }
                if draw@[i as int] == place {
                    assert(before.push(draw@[i as int])[i as int] == place);
                }
            }
            if draw[i] == place {
                taken = true;
            }
            i = i + 1;
        }
        assert(draw@.take(i as int) =~= draw@);
        let beside = if draw.len() > 0 {
            let last: u8 = draw[draw.len() - 1];
            place == (last + 1) % 32 || place == (last + 31) % 32
        } else {
            false
        };
        let ghost before = places@;
        if !taken && !beside {
            places.push(place);
            proof {
                assert(places@[before.len() as int] == place);
                assert forall|v: u8| places@.contains(v) <==> before.contains(v) || v == place by {
                    if before.contains(v) {
                        assert(places@[before.index_of(v)] == v);
                    }
                }
            }
        }
        place = place + 1;
    }
    proof {
        assert forall|v: u8| places@.contains(v) <==> is_free(draw@, v) by {}
        some_place_is_free(draw@);
        let free = choose|v: u8| is_free(draw@, v);
        assert(places@.contains(free));
    }
    places
}

proof fn some_place_is_free(draw: Seq<u8>)
    requires
        draw.len() < SHARED_CODE_LENGTH,
        forall|i: int| 0 <= i < draw.len() ==> #[trigger] draw[i] < 32,
    ensures
        exists|place: u8| is_free(draw, place),
{
    if forall|place: u8| !is_free(draw, place) {
        let taken = draw.map_values(|v: u8| v as int);
        let last = if draw.len() > 0 {
            draw.last() as int
        } else {
            0
        };
        let refused = taken.push((last + 1) % 32).push((last + 31) % 32);
        let all = vstd::set_lib::set_int_range(0, 32);
        assert forall|v: int| all.contains(v) implies refused.to_set().contains(v) by {
            assert(!is_free(draw, v as u8));
            if draw.contains(v as u8) {
                let k = draw.index_of(v as u8);
                assert(refused[k] == v);
            } else if v == (last + 1) % 32 {
                assert(refused[draw.len() as int] == v);
            } else {
                assert(refused[draw.len() as int + 1] == v);
            }
        }
        vstd::set_lib::lemma_int_range(0, 32);
        refused.lemma_cardinality_of_set();
        vstd::seq_lib::seq_to_set_is_finite(refused);
        vstd::set_lib::lemma_len_subset(all, refused.to_set());
        assert(false);
    }
}

/// Draws the places of the symbols of a code that cannot be weak.
fn draw_spread_places() -> (draw: Vec<u8>)
    ensures
        is_draw(draw@),
        is_spread(draw@),
{
    let mut draw: Vec<u8> = Vec::new();
    while draw.len() < SHARED_CODE_LENGTH
        invariant
            draw.len() <= SHARED_CODE_LENGTH,
            forall|i: int| 0 <= i < draw@.len() ==> #[trigger] draw@[i] < 32,
            is_spread(draw@),
        decreases SHARED_CODE_LENGTH - draw.len(),
    {
        let places = free_places(&draw);
        let index: u8 = random_index(places.len() as u8);
        let place: u8 = places[index as usize];
        let ghost before = draw@;
        assert(places@.contains(place));
        draw.push(place);
        proof {
            assert forall|i: int| 0 <= i < draw@.len() implies #[trigger] is_free(
                draw@.take(i),
                draw@[i],
            ) by {
                assert(draw@.take(i) =~= before.take(i));
                if i == before.len() {
                    assert(before.take(i) =~= before);
                } else {
                    assert(is_free(before.take(i), before[i]));
                }
            }
        }
    }
    draw
}

/// A spread draw spells a strong code.
pub proof fn spread_draws_are_strong(draw: Seq<u8>)
    requires
        is_draw(draw),
        is_spread(draw),
    ensures
        is_code(code_of(draw)),
        is_strong(code_of(draw)),
{
    let code = code_of(draw);
    assert forall|i: int| 0 <= i < code.len() implies code_index(#[trigger] code[i]) == Some(
        draw[i] as int,
    ) by {
        assert(draw[i] < 32);
    }
    assert forall|i: int, j: int| 0 <= i < j < code.len() implies code[i] != code[j] by {
        assert(is_free(draw.take(j), draw[j]));
        assert(draw.take(j)[i] == draw[i]);
        assert(code_index(code[i]) != code_index(code[j]));
    }
    code.unique_seq_to_set();
    assert forall|p: int| 1 <= p < code.len() implies !#[trigger] has_period(code, p) by {
        if has_period(code, p) {
            assert(code[p] == code[p % p]);
        }
    }
    assert forall|j: int, step: int|
        0 <= j < code.len() - 1 && (step == 1 || step == 31) implies !#[trigger] steps(
        code,
        j,
        step,
    ) by {
        assert(is_free(draw.take(j + 1), draw[j + 1]));
        assert(draw.take(j + 1).last() == draw[j]);
        assert(code_index(code[j]) == Some(draw[j] as int));
        assert(code_index(code[j + 1]) == Some(draw[j + 1] as int));
    }
    assert forall|from: int|
        0 <= from <= code.len() - OBVIOUS_SEQUENCE_LENGTH implies !#[trigger] is_run(code, from, 1)
        && !is_run(code, from, 31) by {
        assert(!steps(code, from, 1));
        assert(!steps(code, from, 31));
    }
}

/// Draws a pairing key: random symbols, drawn again while they are weak. Should they be weak
/// every time, symbols are drawn that cannot be.
pub fn generate_pairing_key() -> (key: String)
    ensures
        is_code(key@),
        is_strong(key@),
{
    let mut draws: u32 = 0;
    while draws < MAX_KEY_DRAWS
        decreases MAX_KEY_DRAWS - draws,
    {
        if let Some(key) = pairing_key_of(&draw_places()) {
            return key;
        }
        draws = draws + 1;
    }
    let draw = draw_spread_places();
    proof {
        spread_draws_are_strong(draw@);
    }
    match pairing_key_of(&draw) {
        Some(key) => key,
        None => String::new(),
    }
}

/// Draws a device identifier.
pub fn new_device_id() -> (id: String)
    ensures
        exists|b: Seq<u8>| is_fresh_id(b) && id@ == #[trigger] uuid_text::hyphenated(b),
{
    let bytes = random_uuid();
    assert(bytes@[6] != 0);
    hyphenated_text(bytes)
}

impl Default for SyncConfig {
    /// The defaults for a new device, with an identity of its own.
    fn default() -> (config: Self)
        ensures
            exists|b: Seq<u8>|
                is_fresh_id(b) && config.device_id@ == #[trigger] uuid_text::hyphenated(b),
            is_code(config.shared_code@),
            is_strong(config.shared_code@),
            config.enabled,
            config.local_ip@.len() == 0,
            config.listen_port == 32910,
            config.poll_interval_ms == 900,
    {
        SyncConfig::with_identity(new_device_id(), generate_pairing_key())
    }
}

impl Default for Settings {
    /// The defaults for a new device, with an identity of its own.
    fn default() -> (settings: Self)
        ensures
            is_new_device(settings@),
    {
        let sync = SyncConfig::default();
        let ghost id = choose|b: Seq<u8>|
            is_fresh_id(b) && sync.device_id@ == #[trigger] uuid_text::hyphenated(b);
        let settings = Settings {
            limits: SizeLimits::default(),
            sync,
            security: SecurityConfig::default(),
            ui: UiConfig::default(),
        };
        assert(settings@ =~= default_settings(
            uuid_text::hyphenated(id),
            settings.sync.shared_code@,
        ));
        settings
    }
}

impl Settings {
    /// The defaults for a device with the given identity.
    pub fn with_identity(device_id: String, shared_code: String) -> (settings: Self)
        ensures
            settings@ == default_settings(device_id@, shared_code@),
    {
        Settings {
            limits: SizeLimits::default(),
            sync: SyncConfig::with_identity(device_id, shared_code),
            security: SecurityConfig::default(),
            ui: UiConfig::default(),
        }
    }

    /// The device identifier without white space around it.
    pub fn sync_device_id(&self) -> (id: String)
        ensures
            id@ == text::trimmed(self.sync.device_id@),
    {
        trim(&self.sync.device_id)
    }

    /// Validates settings and brings them to their normal form. A device
    /// without an identifier gets `fresh`.
    pub fn normalized_with(self, fresh: [u8; 16]) -> (result: Result<
        Self,
        SettingsValidationError,
    >)
        ensures
            match result {
                Ok(s) => normal_settings(self@, fresh@) == Ok::<_, SettingsValidationError>(s@),
                Err(e) => normal_settings(self@, fresh@) == Err::<SettingsView, _>(e),
            },
    {
        let mut next = self;
        next.sync.shared_code = canonicalize_shared_code(&next.sync.shared_code);
        if is_legacy_code_text(&next.sync.shared_code) {
            return Err(SettingsValidationError::LegacySharedCode);
        }
        if !is_valid_shared_code(&next.sync.shared_code) {
            return Err(SettingsValidationError::InvalidSharedCode);
        }
        if !is_strong_shared_code(&next.sync.shared_code) {
            return Err(SettingsValidationError::WeakSharedCode);
        }
        let device_id = trim(&next.sync.device_id);
        if device_id.as_str().is_empty() {
            next.sync.device_id = hyphenated_text(fresh);
        } else {
            match parse_uuid_text(&device_id) {
                None => return Err(SettingsValidationError::InvalidDeviceId),
                Some(bytes) => {
                    if is_nil_uuid(&bytes) {
                        return Err(SettingsValidationError::InvalidDeviceId);
                    }
                    next.sync.device_id = hyphenated_text(bytes);
                },
            }
        }
        next.sync.local_ip = trim(&next.sync.local_ip);
        if next.sync.listen_port < MIN_LISTEN_PORT {
            return Err(SettingsValidationError::InvalidListenPort);
        }
        if next.sync.poll_interval_ms == 0 || next.sync.poll_interval_ms > MAX_POLL_INTERVAL_MS {
            return Err(SettingsValidationError::InvalidPollInterval);
        }
        if next.limits.max_item_bytes == 0 || next.limits.max_item_bytes > MAX_ITEM_BYTES {
            return Err(SettingsValidationError::InvalidMaxItemBytes);
        }
        next.security.encryption_enabled = true;
        next.ui.language = trim(&next.ui.language);
        if next.ui.language.as_str().is_empty() {
            next.ui.language = "auto".to_owned();
        }
        Ok(next)
    }

    /// Validates settings and brings them to their normal form. A device
    /// without an identifier gets a random one.
    pub fn normalized(self) -> (result: Result<Self, SettingsValidationError>)
        ensures
            exists|fresh: Seq<u8>|
                is_fresh_id(fresh) && match result {
                    Ok(s) => #[trigger] normal_settings(self@, fresh) == Ok::<
                        _,
                        SettingsValidationError,
                    >(s@),
                    Err(e) => normal_settings(self@, fresh) == Err::<SettingsView, _>(e),
                },
    {
        let fresh = random_uuid();
        assert(fresh@[6] != 0);
        assert(is_fresh_id(fresh@));
        self.normalized_with(fresh)
    }

    /// Applies what the user edited and keeps what the application owns.
    pub fn apply_update(&self, update: SettingsUpdate) -> (result: Result<
        Self,
        SettingsValidationError,
    >)
        ensures
            exists|fresh: Seq<u8>|
                is_fresh_id(fresh) && match result {
                    Ok(s) => #[trigger] normal_settings(updated_settings(self@, update), fresh)
                        == Ok::<_, SettingsValidationError>(s@),
                    Err(e) => normal_settings(updated_settings(self@, update), fresh) == Err::<
                        SettingsView,
                        _,
                    >(e),
                },
    {
        let mut next = self.clone();
        next.limits.max_item_bytes = update.max_item_bytes;
        next.sync.shared_code = update.shared_code.clone();
        next.sync.local_ip = update.local_ip.clone();
        next.ui.language = update.language.clone();
        next.ui.launch_at_login = update.launch_at_login;
        next.sync.enabled = true;
        next.security.encryption_enabled = true;
        assert(next@ =~= updated_settings(self@, update));
        next.normalized()
    }

    /// Takes what reading the settings file gave and normalizes it. A device
    /// without an identifier gets `fresh`.
    pub fn load_with(stored: StoredSettings, fresh: [u8; 16]) -> (result: Result<
        Self,
        SettingsError,
    >)
        ensures
            settings_are(result, loaded_settings(stored, fresh@)),
    {
        match stored {
            StoredSettings::Missing => Err(SettingsError::NotFound),
            StoredSettings::Unreadable => Err(SettingsError::Io),
            StoredSettings::NotSettings => Err(SettingsError::Corrupt),
            StoredSettings::Value(value) => match value.normalized_with(fresh) {
                Ok(settings) => Ok(settings),
                Err(e) => Err(SettingsError::Validation(e)),
            },
        }
    }

    /// Takes what reading the settings file gave and normalizes it. A device
    /// without an identifier gets a random one.
    pub fn load(stored: StoredSettings) -> (result: Result<Self, SettingsError>)
        ensures
            exists|fresh: Seq<u8>|
                is_fresh_id(fresh) && settings_are(
                    result,
                    #[trigger] loaded_settings(stored, fresh),
                ),
    {
        let fresh = fresh_id();
        Settings::load_with(stored, fresh)
    }

    /// The settings to write to the file: only normal settings are stored.
    pub fn save(&self) -> (result: Result<Self, SettingsError>)
        ensures
            exists|fresh: Seq<u8>|
                is_fresh_id(fresh) && settings_are(
                    result,
                    #[trigger] loaded_settings(StoredSettings::Value(*self), fresh),
                ),
    {
        Settings::load(StoredSettings::Value(self.clone()))
    }

    /// Replaces a legacy code by `key`. Settings with any other code are refused.
    pub fn migrated_with(stored: StoredSettings, key: String, fresh: [u8; 16]) -> (result: Result<
        Self,
        SettingsError,
    >)
        ensures
            settings_are(result, migrated_settings(stored, key@, fresh@)),
    {
        match stored {
            StoredSettings::Missing => Err(SettingsError::NotFound),
            StoredSettings::Unreadable => Err(SettingsError::Io),
            StoredSettings::NotSettings => Err(SettingsError::Corrupt),
            StoredSettings::Value(value) => {
                let legacy_code = canonicalize_shared_code(&value.sync.shared_code);
                if !is_legacy_code_text(&legacy_code) {
                    return Err(
                        SettingsError::Validation(SettingsValidationError::InvalidSharedCode),
                    );
                }
                let mut next = value;
                next.sync.shared_code = key;
                match next.normalized_with(fresh) {
                    Ok(settings) => Ok(settings),
                    Err(e) => Err(SettingsError::Validation(e)),
                }
            },
        }
    }

    /// Replaces a legacy code by a new pairing key, once the stored file has been
    /// read; the file is backed up before the result is written over it.
    pub fn migrate_legacy_shared_code(stored: StoredSettings) -> (result: Result<
        Self,
        SettingsError,
    >)
        ensures
            !holds_legacy_code(stored) ==> settings_are(
                result,
                migrated_settings(stored, Seq::empty(), Seq::empty()),
            ),
            holds_legacy_code(stored) ==> exists|key: Seq<char>, fresh: Seq<u8>|
                is_code(key) && is_strong(key) && is_fresh_id(fresh) && settings_are(
                    result,
                    #[trigger] migrated_settings(stored, key, fresh),
                ),
    {
        let legacy = match &stored {
            StoredSettings::Value(value) => {
                is_legacy_code_text(&canonicalize_shared_code(&value.sync.shared_code))
            },
            _ => false,
        };
        let key = if legacy {
            generate_pairing_key()
        } else {
            String::new()
        };
        let fresh = fresh_id();
        Settings::migrated_with(stored, key, fresh)
    }

    /// The settings that take the place of a file whose settings cannot be used: the
    /// defaults, with a new identity. Where there is no file, or it cannot be read, nothing
    /// takes its place. The file is backed up before the result is written over it.
    pub fn recover_invalid(stored: StoredSettings) -> (result: Result<Self, SettingsError>)
        ensures
            match stored {
                StoredSettings::Missing => result == Err::<Settings, _>(SettingsError::NotFound),
                StoredSettings::Unreadable => result == Err::<Settings, _>(SettingsError::Io),
                _ => result is Ok && is_new_device(result->Ok_0@),
            },
    {
        match stored {
            StoredSettings::Missing => return Err(SettingsError::NotFound),
            StoredSettings::Unreadable => return Err(SettingsError::Io),
            _ => {},
        }
        let settings = Settings::default();
        let fresh = fresh_id();
        proof {
            let (b, code) = choose|b: Seq<u8>, code: Seq<char>|
                is_fresh_id(b) && is_code(code) && is_strong(code)
                    && settings@ == #[trigger] default_settings(uuid_text::hyphenated(b), code);
            defaults_are_normal(b, code, fresh@);
        }
        match settings.normalized_with(fresh) {
            Ok(settings) => Ok(settings),
            Err(e) => Err(SettingsError::Validation(e)),
        }
    }
}

/// The file that keeps a copy of settings that are about to be replaced:
/// `stem.json`, or `stem.` with a fresh identifier where that file exists.
pub open spec fn backup_name(stem: Seq<char>, taken: bool, fresh: Seq<u8>) -> Seq<char> {
    if taken {
        stem + "."@ + uuid_text::hyphenated(fresh) + ".json"@
    } else {
        stem + ".json"@
    }
}

/// The stem of the backup's name, by what is done to the settings.
pub open spec fn backup_stem(kind: SettingsNoticeKind) -> Seq<char> {
    match kind {
        SettingsNoticeKind::LegacyPairingMigrated => "settings.legacy-v3"@,
        SettingsNoticeKind::InvalidSettingsRecovered => "settings.invalid-v4"@,
    }
}

/// Names the backup of settings that are about to be replaced, where `taken`
/// tells whether the preferred name is in use.
pub fn next_backup_name(kind: SettingsNoticeKind, taken: bool, fresh: [u8; 16]) -> (name: String)
    ensures
        name@ == backup_name(backup_stem(kind), taken, fresh@),
{
    let mut name: String = match kind {
        SettingsNoticeKind::LegacyPairingMigrated => "settings.legacy-v3".to_owned(),
        SettingsNoticeKind::InvalidSettingsRecovered => "settings.invalid-v4".to_owned(),
    };
    if taken {
        name.append(".");
        name.append(&hyphenated_text(fresh));
    }
    name.append(".json");
    name
}

/// Names the backup of settings that are about to be replaced, with an identifier of its own
/// where the preferred name is in use.
pub fn new_backup_name(kind: SettingsNoticeKind, taken: bool) -> (name: String)
    ensures
        exists|fresh: Seq<u8>|
            is_fresh_id(fresh) && name@ == #[trigger] backup_name(backup_stem(kind), taken, fresh),
{
    let fresh = fresh_id();
    next_backup_name(kind, taken, fresh)
}

/// The file that settings are written to before they take the place of a file.
pub open spec fn temporary_name(file_name: Seq<char>, fresh: Seq<u8>) -> Seq<char> {
    "."@ + file_name + "."@ + uuid_text::hyphenated(fresh) + ".tmp"@
}

/// Names the file that settings are written to before they take the place of a file.
pub fn new_temporary_name(file_name: &str) -> (name: String)
    ensures
        exists|fresh: Seq<u8>|
            is_fresh_id(fresh) && name@ == #[trigger] temporary_name(file_name@, fresh),
{
    let fresh = fresh_id();
    let mut name: String = ".".to_owned();
    name.append(file_name);
    name.append(".");
    name.append(&hyphenated_text(fresh));
    name.append(".tmp");
    assert(name@ =~= temporary_name(file_name@, fresh@));
    name
}

/// An existing backup is never overwritten: another name is taken for it.
pub proof fn backup_name_avoids_taken_name(kind: SettingsNoticeKind, fresh: Seq<u8>)
    ensures
        backup_name(backup_stem(kind), true, fresh) != backup_name(backup_stem(kind), false, fresh),
{
    let stem = backup_stem(kind);
    assert(backup_name(stem, true, fresh).len() > backup_name(stem, false, fresh).len());
}

/// Draws an identifier for a device that has none.
fn fresh_id() -> (bytes: [u8; 16])
    ensures
        is_fresh_id(bytes@),
{
    let bytes = random_uuid();
    assert(bytes@[6] != 0);
    bytes
}

proof fn filter_keeps_all(s: Seq<char>, keep: spec_fn(char) -> bool)
    requires
        forall|i: int| 0 <= i < s.len() ==> keep(#[trigger] s[i]),
    ensures
        s.filter(keep) == s,
    decreases s.len(),
{
    reveal(Seq::filter);
    if s.len() > 0 {
        assert(forall|i: int| 0 <= i < s.len() - 1 ==> s.drop_last()[i] == s[i]);
        filter_keeps_all(s.drop_last(), keep);
        assert(s =~= s.drop_last().push(s.last()));
    }
}

/// A code is its own canonical form.
pub proof fn code_is_canonical(code: Seq<char>)
    requires
        all_symbols(code),
    ensures
        canonical_code(code) == code,
{
    let keep = |c: char| !is_code_separator(c);
    assert forall|i: int| 0 <= i < code.len() implies keep(#[trigger] code[i]) by {
        assert(code_index(code[i]) is Some);
    }
    filter_keeps_all(code, keep);
    assert forall|i: int| 0 <= i < code.len() implies text::ascii_upper(#[trigger] code[i])
        == code[i] by {
        assert(code_index(code[i]) is Some);
    }
    assert(canonical_code(code) =~= code);
}

/// Canonicalization is idempotent on what it accepts, and settings in their
/// normal form stay as they are when they are normalized again.
pub proof fn normalization_is_idempotent(s: SettingsView, fresh: Seq<u8>, other: Seq<u8>)
    requires
        is_fresh_id(fresh),
        normal_settings(s, fresh) is Ok,
    ensures
        normal_settings(normal_settings(s, fresh)->Ok_0, other) == normal_settings(s, fresh),
{
    let t = normal_settings(s, fresh)->Ok_0;
    code_is_canonical(t.shared_code);
    let id = text::trimmed(s.device_id);
    let b = if id.len() == 0 { fresh } else { uuid_text::uuid_bytes(id)->Some_0 };
    assert(b.len() == 16);
    assert(t.device_id == uuid_text::hyphenated(b));
    hyphenated_is_normal(b, other);
    text::trim_is_idempotent(s.local_ip);
    text::trim_is_idempotent(s.language);
    reveal_strlit("auto");
    text::trim_keeps("auto"@);
    assert(normal_settings(t, other)->Ok_0 =~= t);
}

proof fn hyphenated_is_normal(b: Seq<u8>, other: Seq<u8>)
    requires
        b.len() == 16,
        !uuid_text::is_nil(b),
    ensures
        normal_device_id(uuid_text::hyphenated(b), other) == Some(uuid_text::hyphenated(b)),
{
    let h = uuid_text::hyphenated(b);
    uuid_text::hyphenated_is_read_back(b);
    text::trim_keeps(h);
}

/// The defaults of a new device are in their normal form.
pub proof fn defaults_are_normal(b: Seq<u8>, code: Seq<char>, other: Seq<u8>)
    requires
        is_fresh_id(b),
        is_code(code),
        is_strong(code),
    ensures
        normal_settings(default_settings(uuid_text::hyphenated(b), code), other) == Ok::<
            _,
            SettingsValidationError,
        >(default_settings(uuid_text::hyphenated(b), code)),
{
    let s = default_settings(uuid_text::hyphenated(b), code);
    code_is_canonical(code);
    hyphenated_is_normal(b, other);
    reveal_strlit("auto");
    text::trim_keeps("auto"@);
    text::trim_keeps(Seq::<char>::empty());
    assert(normal_settings(s, other)->Ok_0 =~= s);
}

/// The settings of a new device, and with them those that take the place of settings that
/// cannot be used, are loaded unchanged.
pub proof fn new_settings_are_loaded_unchanged(settings: Settings, other: Seq<u8>)
    requires
        is_new_device(settings@),
    ensures
        loaded_settings(StoredSettings::Value(settings), other) == Ok::<_, SettingsError>(
            settings@,
        ),
{
    let (b, code) = choose|b: Seq<u8>, code: Seq<char>|
        is_fresh_id(b) && is_code(code) && is_strong(code)
            && settings@ == #[trigger] default_settings(uuid_text::hyphenated(b), code);
    defaults_are_normal(b, code, other);
}

/// An update by the user that is accepted keeps what the application owns and
/// leaves synchronization and encryption on.
pub proof fn update_keeps_owned_settings(s: SettingsView, update: SettingsUpdate, fresh: Seq<u8>)
    requires
        normal_settings(updated_settings(s, update), fresh) is Ok,
    ensures
        ({
            let t = normal_settings(updated_settings(s, update), fresh)->Ok_0;
            &&& t.listen_port == s.listen_port
            &&& t.poll_interval_ms == s.poll_interval_ms
            &&& Some(t.device_id) == normal_device_id(s.device_id, fresh)
            &&& t.enabled
            &&& t.encryption_enabled
            &&& t.max_item_bytes == update.max_item_bytes
            &&& t.launch_at_login == update.launch_at_login
        }),
{
}

/// Migration is offered for exactly the settings that loading refuses for
/// their legacy code, and the migrated settings can be loaded unchanged.
pub proof fn migration_repairs_legacy_settings(
    value: Settings,
    key: Seq<char>,
    fresh: Seq<u8>,
    other: Seq<u8>,
)
    requires
        is_code(key),
        is_strong(key),
        is_fresh_id(fresh),
    ensures
        loaded_settings(StoredSettings::Value(value), fresh) == Err::<SettingsView, _>(
            SettingsError::Validation(SettingsValidationError::LegacySharedCode),
        ) <==> is_legacy_code(canonical_code(value@.shared_code)),
        migrated_settings(StoredSettings::Value(value), key, fresh) is Ok ==> {
            let t = migrated_settings(StoredSettings::Value(value), key, fresh)->Ok_0;
            t.shared_code == key && normal_settings(t, other) == Ok::<_, SettingsValidationError>(t)
        },
{
    if migrated_settings(StoredSettings::Value(value), key, fresh) is Ok {
        let s = SettingsView { shared_code: key, ..value@ };
        code_is_canonical(key);
        normalization_is_idempotent(s, fresh, other);
    }
}

/// The symbols of a code are the capital letters but `I` and `O`, and the digits from 2 to 9:
/// a code is any 26 of them.
pub proof fn codes_are_26_symbols(s: Seq<char>, c: char)
    ensures
        code_index(c) is Some <==> ('A' <= c <= 'Z' && c != 'I' && c != 'O') || '2' <= c <= '9',
        is_code(s) <==> s.len() == 26 && forall|i: int|
            0 <= i < s.len() ==> ('A' <= #[trigger] s[i] <= 'Z' && s[i] != 'I' && s[i] != 'O') || '2'
                <= s[i] <= '9',
{
    if is_code(s) {
        assert forall|i: int| 0 <= i < s.len() implies ('A' <= #[trigger] s[i] <= 'Z' && s[i] != 'I'
            && s[i] != 'O') || '2' <= s[i] <= '9' by {
            assert(code_index(s[i]) is Some);
        }
    }
    if s.len() == 26 && forall|i: int|
        0 <= i < s.len() ==> ('A' <= #[trigger] s[i] <= 'Z' && s[i] != 'I' && s[i] != 'O') || '2'
            <= s[i] <= '9' {
        assert forall|i: int| 0 <= i < s.len() implies code_index(#[trigger] s[i]) is Some by {}
    }
}

proof fn periods_step_back(s: Seq<char>, p: int, i: int)
    requires
        1 <= p <= i < s.len(),
        has_period(s, p),
    ensures
        s[i] == s[i - p],
{
    assert(s[i] == s[i % p]);
    assert((i - p) % p == i % p) by (nonlinear_arith)
        requires
            1 <= p <= i,
    ;
    if i - p >= p {
        assert(s[i - p] == s[(i - p) % p]);
    } else {
        assert((i - p) % p == i - p) by (nonlinear_arith)
            requires
                0 <= i - p < p,
        ;
    }
}

proof fn steps_back_make_periods(s: Seq<char>, p: int, i: int)
    requires
        1 <= p,
        0 <= i < s.len(),
        forall|k: int| p <= k < s.len() ==> #[trigger] s[k] == s[k - p],
    ensures
        s[i] == s[i % p],
    decreases i,
{
    if i >= p {
        assert(s[i] == s[i - p]);
        steps_back_make_periods(s, p, i - p);
        assert((i - p) % p == i % p) by (nonlinear_arith)
            requires
                1 <= p <= i,
        ;
    } else {
        assert(i % p == i) by (nonlinear_arith)
            requires
                0 <= i < p,
        ;
    }
}

/// Every symbol of `s` from place `p` on is the one `p` places before it.
pub open spec fn repeats_after(s: Seq<char>, p: int) -> bool {
    forall|i: int| p <= i < s.len() ==> #[trigger] s[i] == s[i - p]
}

/// Eight symbols from `from` on follow each other in the alphabet, forwards or backwards.
pub open spec fn follow_each_other(s: Seq<char>, from: int) -> bool {
    (forall|j: int| from <= j < from + 7 ==> #[trigger] steps(s, j, 1)) || (forall|j: int|
        from <= j < from + 7 ==> #[trigger] steps(s, j, 31))
}

/// A code is strong exactly if it has ten different symbols, is nowhere a repetition of a
/// shorter group, and has no eight symbols in a row that follow each other in the alphabet,
/// forwards or backwards.
pub proof fn codes_are_strong_without_patterns(s: Seq<char>)
    requires
        is_code(s),
    ensures
        is_strong(s) <==> {
            &&& s.to_set().len() >= 10
            &&& forall|p: int| 1 <= p < 26 ==> !#[trigger] repeats_after(s, p)
            &&& forall|from: int| 0 <= from <= 18 ==> !#[trigger] follow_each_other(s, from)
        },
{
    assert forall|p: int| 1 <= p < 26 implies #[trigger] has_period(s, p) == repeats_after(s, p) by {
        if has_period(s, p) {
            assert forall|i: int| p <= i < s.len() implies #[trigger] s[i] == s[i - p] by {
                periods_step_back(s, p, i);
            }
        }
        if repeats_after(s, p) {
            assert forall|i: int| p <= i < s.len() implies #[trigger] s[i] == s[i % p] by {
                steps_back_make_periods(s, p, i);
            }
        }
    }
    if is_strong(s) {
        assert forall|p: int| 1 <= p < 26 implies !#[trigger] repeats_after(s, p) by {
            assert(!has_period(s, p));
        }
        assert forall|from: int| 0 <= from <= 18 implies !#[trigger] follow_each_other(s, from) by {
            if follow_each_other(s, from) {
                assert(is_run(s, from, 1) || is_run(s, from, 31));
                assert(has_run(s));
            }
        }
    }
    if s.to_set().len() >= 10 && (forall|p: int| 1 <= p < 26 ==> !#[trigger] repeats_after(s, p))
        && (forall|from: int| 0 <= from <= 18 ==> !#[trigger] follow_each_other(s, from)) {
        assert forall|p: int| 1 <= p < s.len() implies !#[trigger] has_period(s, p) by {
            assert(!repeats_after(s, p));
        }
        if has_run(s) {
            let from = choose|from: int|
                0 <= from <= s.len() - OBVIOUS_SEQUENCE_LENGTH && (#[trigger] is_run(s, from, 1)
                    || is_run(s, from, 31));
            assert(follow_each_other(s, from));
        }
    }
}

/// Whoever types a code may leave gaps and dashes in it and need not use capital letters: a
/// blank or a dash anywhere changes nothing, and any other character counts, in its place, a
/// small letter as its capital one.
pub proof fn codes_are_read_leniently(a: Seq<char>, c: char, b: Seq<char>)
    ensures
        c == ' ' || c == '\t' || c == '\n' || c == '\r' || c == '\x0c' || c == '-'
            ==> canonical_code(a.push(c) + b) == canonical_code(a + b),
        c != ' ' && c != '\t' && c != '\n' && c != '\r' && c != '\x0c' && c != '-'
            ==> canonical_code(a.push(c) + b) == canonical_code(a).push(
            if 'a' <= c <= 'z' {
                (c as int - 32) as char
            } else {
                c
            },
        ) + canonical_code(b),
        canonical_code(Seq::empty()) == Seq::<char>::empty(),
{
    let keep = |c: char| !is_code_separator(c);
    let up = |c: char| text::ascii_upper(c);
    a.lemma_filter_push(c, keep);
    Seq::filter_distributes_over_add(a.push(c), b, keep);
    Seq::filter_distributes_over_add(a, b, keep);
    assert(canonical_code(a.push(c) + b) =~= a.push(c).filter(keep).map_values(up) + b.filter(
        keep,
    ).map_values(up));
    assert(canonical_code(a + b) =~= a.filter(keep).map_values(up) + b.filter(keep).map_values(up));
    reveal(Seq::filter);
    assert(canonical_code(Seq::empty()) =~= Seq::<char>::empty());
    if keep(c) {
        assert(a.push(c).filter(keep).map_values(up) =~= a.filter(keep).map_values(up).push(up(c)));
    }
}

/// Settings with a strong code, an identifier, a port from 1024 on, an interval of up to a
/// minute and a limit of up to 1000 MiB are accepted, and nothing of what the user chose is
/// lost: white space is taken off the ends of the address and the language, a missing language
/// becomes `auto`, and encryption is on.
pub proof fn acceptable_settings_are_accepted(s: SettingsView, b: Seq<u8>, fresh: Seq<u8>)
    requires
        b.len() == 16,
        exists|i: int| 0 <= i < 16 && #[trigger] b[i] != 0,
        s.device_id == uuid_text::hyphenated(b),
        is_code(canonical_code(s.shared_code)),
        is_strong(canonical_code(s.shared_code)),
        1024 <= s.listen_port,
        1 <= s.poll_interval_ms <= 60_000,
        1 <= s.max_item_bytes <= 1_048_576_000,
    ensures
        normal_settings(s, fresh) is Ok,
        ({
            let t = normal_settings(s, fresh)->Ok_0;
            &&& t.device_id == s.device_id
            &&& t.shared_code == canonical_code(s.shared_code)
            &&& t.listen_port == s.listen_port
            &&& t.poll_interval_ms == s.poll_interval_ms
            &&& t.max_item_bytes == s.max_item_bytes
            &&& t.launch_at_login == s.launch_at_login
            &&& t.local_ip == text::trimmed(s.local_ip)
            &&& text::trimmed(s.language).len() > 0 ==> t.language == text::trimmed(s.language)
            &&& text::trimmed(s.language).len() == 0 ==> t.language == "auto"@
            &&& t.enabled == s.enabled
            &&& t.encryption_enabled
        }),
{
    assert(!uuid_text::is_nil(b)) by {
        let i = choose|i: int| 0 <= i < 16 && #[trigger] b[i] != 0;
        assert(b[i] != 0);
    }
    hyphenated_is_normal(b, fresh);
    let code = canonical_code(s.shared_code);
    assert(code.len() == 26);
}

/// Settings outside the limits are refused with the error for the limit, if their code and
/// their identifier can be used; and so are settings whose code cannot.
pub proof fn unacceptable_settings_are_refused(s: SettingsView, fresh: Seq<u8>)
    ensures
        ({
            let code = canonical_code(s.shared_code);
            let known = is_code(code) && is_strong(code) && normal_device_id(
                s.device_id,
                fresh,
            ) is Some;
            &&& code.len() == 6 && (forall|i: int| 0 <= i < 6 ==> '0' <= #[trigger] code[i] <= '9')
                ==> normal_settings(s, fresh) == Err::<SettingsView, _>(
                SettingsValidationError::LegacySharedCode,
            )
            &&& code.len() != 6 && code.len() != 26 ==> normal_settings(s, fresh) == Err::<
                SettingsView,
                _,
            >(SettingsValidationError::InvalidSharedCode)
            &&& is_code(code) && !is_strong(code) ==> normal_settings(s, fresh) == Err::<
                SettingsView,
                _,
            >(SettingsValidationError::WeakSharedCode)
            &&& known && s.listen_port < 1024 ==> normal_settings(s, fresh) == Err::<
                SettingsView,
                _,
            >(SettingsValidationError::InvalidListenPort)
            &&& known && s.listen_port >= 1024 && !(1 <= s.poll_interval_ms <= 60_000)
                ==> normal_settings(s, fresh) == Err::<SettingsView, _>(
                SettingsValidationError::InvalidPollInterval,
            )
            &&& known && s.listen_port >= 1024 && 1 <= s.poll_interval_ms <= 60_000 && !(1
                <= s.max_item_bytes <= 1_048_576_000) ==> normal_settings(s, fresh) == Err::<
                SettingsView,
                _,
            >(SettingsValidationError::InvalidMaxItemBytes)
        }),
{
}

/// A device without an identifier gets the one that was drawn for it, and one with an
/// identifier keeps it, in whatever case it is written; an identifier of zeros is refused.
pub proof fn devices_keep_their_identifiers(device_id: Seq<char>, fresh: Seq<u8>, b: Seq<u8>)
    requires
        b.len() == 16,
    ensures
        text::trimmed(device_id).len() == 0 ==> normal_device_id(device_id, fresh) == Some(
            uuid_text::hyphenated(fresh),
        ),
        (exists|i: int| 0 <= i < 16 && #[trigger] b[i] != 0) ==> normal_device_id(
            uuid_text::hyphenated(b),
            fresh,
        ) == Some(uuid_text::hyphenated(b)),
        (forall|i: int| 0 <= i < 16 ==> #[trigger] b[i] == 0) ==> normal_device_id(
            uuid_text::hyphenated(b),
            fresh,
        ) is None,
{
    let h = uuid_text::hyphenated(b);
    uuid_text::hyphenated_is_read_back(b);
    text::trim_keeps(h);
}

/// What the user changes is what the settings then hold: the limit, the code, the address, the
/// language and the start at login are those of the update, the rest stays.
pub proof fn updates_change_what_they_name(s: SettingsView, update: SettingsUpdate, b: Seq<u8>, fresh: Seq<u8>)
    requires
        b.len() == 16,
        exists|i: int| 0 <= i < 16 && #[trigger] b[i] != 0,
        s.device_id == uuid_text::hyphenated(b),
        is_code(canonical_code(update.shared_code@)),
        is_strong(canonical_code(update.shared_code@)),
        1024 <= s.listen_port,
        1 <= s.poll_interval_ms <= 60_000,
        1 <= update.max_item_bytes <= 1_048_576_000,
    ensures
        normal_settings(updated_settings(s, update), fresh) is Ok,
        ({
            let t = normal_settings(updated_settings(s, update), fresh)->Ok_0;
            &&& t.shared_code == canonical_code(update.shared_code@)
            &&& t.max_item_bytes == update.max_item_bytes
            &&& t.local_ip == text::trimmed(update.local_ip@)
            &&& text::trimmed(update.language@).len() > 0 ==> t.language == text::trimmed(
                update.language@,
            )
            &&& t.launch_at_login == update.launch_at_login
            &&& t.device_id == s.device_id
            &&& t.listen_port == s.listen_port
            &&& t.poll_interval_ms == s.poll_interval_ms
            &&& t.enabled
            &&& t.encryption_enabled
        }),
{
    acceptable_settings_are_accepted(updated_settings(s, update), b, fresh);
}

/// A new device listens on port 32910, looks at its clipboard every 900 milliseconds, sends
/// items of up to 256 KiB, and has synchronization and encryption on.
pub proof fn new_devices_start_with_these_settings(device_id: Seq<char>, shared_code: Seq<char>)
    ensures
        ({
            let s = default_settings(device_id, shared_code);
            &&& s.device_id == device_id
            &&& s.shared_code == shared_code
            &&& s.listen_port == 32910
            &&& s.poll_interval_ms == 900
            &&& s.max_item_bytes == 256 * 1024
            &&& s.enabled
            &&& s.encryption_enabled
            &&& s.local_ip.len() == 0
            &&& s.language == "auto"@
            &&& !s.launch_at_login
        }),
{
}

/// Settings with an old code that are otherwise acceptable are repaired by a new code, and
/// by nothing else: everything but the code stays.
pub proof fn migration_changes_the_code_alone(value: Settings, key: Seq<char>, b: Seq<u8>, fresh: Seq<u8>)
    requires
        is_code(key),
        is_strong(key),
        ({
            let code = canonical_code(value@.shared_code);
            code.len() == 6 && forall|i: int| 0 <= i < 6 ==> '0' <= #[trigger] code[i] <= '9'
        }),
        b.len() == 16,
        exists|i: int| 0 <= i < 16 && #[trigger] b[i] != 0,
        value@.device_id == uuid_text::hyphenated(b),
        1024 <= value@.listen_port,
        1 <= value@.poll_interval_ms <= 60_000,
        1 <= value@.max_item_bytes <= 1_048_576_000,
    ensures
        ({
            let migrated = migrated_settings(StoredSettings::Value(value), key, fresh);
            &&& migrated is Ok
            &&& migrated->Ok_0.shared_code == key
            &&& migrated->Ok_0.device_id == value@.device_id
            &&& migrated->Ok_0.listen_port == value@.listen_port
            &&& migrated->Ok_0.poll_interval_ms == value@.poll_interval_ms
            &&& migrated->Ok_0.max_item_bytes == value@.max_item_bytes
            &&& migrated->Ok_0.launch_at_login == value@.launch_at_login
            &&& migrated->Ok_0.local_ip == text::trimmed(value@.local_ip)
            &&& migrated->Ok_0.enabled == value@.enabled
        }),
{
    let s = SettingsView { shared_code: key, ..value@ };
    assert(is_legacy_code(canonical_code(value@.shared_code)));
    assert(canonical_code(s.shared_code) == key) by {
        code_is_canonical(key);
    }
    acceptable_settings_are_accepted(s, b, fresh);
    assert(migrated_settings(StoredSettings::Value(value), key, fresh) == Ok::<_, SettingsError>(
        normal_settings(s, fresh)->Ok_0,
    ));
}

/// A new device has the settings of new devices, under an identifier and a strong code of its
/// own.
pub proof fn new_devices_have_an_identity(s: SettingsView)
    requires
        is_new_device(s),
    ensures
        is_code(s.shared_code) && is_strong(s.shared_code),
        s.device_id.len() == 36,
        s.listen_port == 32910,
        s.poll_interval_ms == 900,
        s.max_item_bytes == 262_144,
        s.enabled && s.encryption_enabled && !s.launch_at_login,
        s.language == "auto"@,
        s.local_ip.len() == 0,
{
}

/// Settings are written beside their file before they take its place, under a hidden name of
/// their own; backups of replaced settings say what was done to them.
pub proof fn settings_files_have_their_names(file_name: Seq<char>, fresh: Seq<u8>, other: Seq<u8>)
    requires
        fresh.len() == 16,
        other.len() == 16,
    ensures
        temporary_name(file_name, fresh) == "."@ + file_name + "."@ + uuid_text::hyphenated(fresh)
            + ".tmp"@,
        temporary_name(file_name, fresh) == temporary_name(file_name, other) <==> fresh == other,
        backup_name(backup_stem(SettingsNoticeKind::LegacyPairingMigrated), false, fresh)
            == "settings.legacy-v3"@ + ".json"@,
        backup_name(backup_stem(SettingsNoticeKind::InvalidSettingsRecovered), false, fresh)
            == "settings.invalid-v4"@ + ".json"@,
{
    let a = temporary_name(file_name, fresh);
    let b = temporary_name(file_name, other);
    let n = "."@.len() as int + file_name.len() + "."@.len();
    assert(a.subrange(n, n + 36) =~= uuid_text::hyphenated(fresh));
    assert(b.subrange(n, n + 36) =~= uuid_text::hyphenated(other));
    uuid_text::hyphenated_is_read_back(fresh);
    uuid_text::hyphenated_is_read_back(other);
}

/// Each of the 32 symbols has its place in the alphabet, from `A` at the start to `9` at the end,
/// and a draw spells the symbols at its places.
pub proof fn draws_spell_their_symbols(draw: Seq<u8>, i: int)
    requires
        0 <= i < draw.len(),
        draw[i] < 32,
    ensures
        code_of(draw).len() == draw.len(),
        code_index(code_of(draw)[i]) == Some(draw[i] as int),
        draw[i] == 0 ==> code_of(draw)[i] == 'A',
        draw[i] == 31 ==> code_of(draw)[i] == '9',
{
}

} // verus!
