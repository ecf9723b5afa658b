//! What the user can ask of the application, and how settings take effect.

use crate::net::discovery::NetworkInterfaceOption;
use crate::net::ipv4;
use crate::net::ipv4::{ipv4_to_text, parse_ipv4};
use crate::net::transfers;
use crate::settings;
use crate::settings::{
    generate_pairing_key, Settings, SettingsError, SettingsNoticeKind, SettingsUpdate,
    SettingsValidationError, SettingsView, StoredSettings,
};
use crate::text;
use crate::text::{byte_len, same_text, trim};
use crate::uuid_text;
use crate::uuid_text::{hyphenated_text, random_uuid};
use vstd::prelude::*;
use vstd::utf8::*;

verus! {

/// How long a scan that the user asked for takes.
pub const MANUAL_DISCOVERY_TIMEOUT_MS: u64 = 2_200;

/// How long late answers to such a scan are waited for.
pub const MANUAL_DISCOVERY_SETTLE_MS: u64 = 700;

/// The longest text of an address in bytes.
pub const MAX_IP_TEXT_BYTES: usize = 45;

/// The settings that the application starts with.
#[derive(Debug)]
pub struct InitialSettings {
    pub settings: Settings,
    /// What was done to the stored settings, if they are replaced. They are backed up
    /// first.
    pub replaced: Option<SettingsNoticeKind>,
}

/// New settings in normal form, for a device with an identity.
pub open spec fn new_settings(id: Seq<u8>, key: Seq<char>, fresh: Seq<u8>) -> Result<
    SettingsView,
    SettingsError,
> {
    match settings::normal_settings(
        settings::default_settings(uuid_text::hyphenated(id), key),
        fresh,
    ) {
        Ok(s) => Ok(s),
        Err(e) => Err(SettingsError::Validation(e)),
    }
}

/// Settings, with what was done to the stored ones.
pub open spec fn tagged(
    s: Result<SettingsView, SettingsError>,
    replaced: Option<SettingsNoticeKind>,
) -> Result<(SettingsView, Option<SettingsNoticeKind>), SettingsError> {
    match s {
        Ok(v) => Ok((v, replaced)),
        Err(e) => Err(e),
    }
}

/// The settings that the application starts with, given what is drawn at random: stored
/// ones in normal form; new ones if there are none; stored ones with a new code if
/// theirs is of an old form; new ones in place of what cannot be used. A file that
/// cannot be read is left alone.
pub open spec fn initial_outcome(
    stored: StoredSettings,
    fresh: Seq<u8>,
    id: Seq<u8>,
    key: Seq<char>,
) -> Result<(SettingsView, Option<SettingsNoticeKind>), SettingsError> {
    match settings::loaded_settings(stored, fresh) {
        Ok(s) => Ok((s, None)),
        Err(SettingsError::NotFound) => tagged(new_settings(id, key, fresh), None),
        Err(SettingsError::Validation(SettingsValidationError::LegacySharedCode)) => tagged(
            settings::migrated_settings(stored, key, fresh),
            Some(SettingsNoticeKind::LegacyPairingMigrated),
        ),
        Err(SettingsError::Corrupt) => tagged(
            new_settings(id, key, fresh),
            Some(SettingsNoticeKind::InvalidSettingsRecovered),
        ),
        Err(SettingsError::Validation(_)) => tagged(
            new_settings(id, key, fresh),
            Some(SettingsNoticeKind::InvalidSettingsRecovered),
        ),
        Err(e) => Err(e),
    }
}

/// The settings and the notice, or the error, that are expected.
pub open spec fn initial_is(
    result: Result<InitialSettings, SettingsError>,
    expected: Result<(SettingsView, Option<SettingsNoticeKind>), SettingsError>,
) -> bool {
    match result {
        Ok(initial) => expected == Ok::<_, SettingsError>((initial.settings@, initial.replaced)),
        Err(e) => expected == Err::<(SettingsView, Option<SettingsNoticeKind>), _>(e),
    }
}

fn new_settings_with(id: [u8; 16], key: String, fresh: [u8; 16]) -> (result: Result<
    Settings,
    SettingsError,
>)
    ensures
        settings::settings_are(result, new_settings(id@, key@, fresh@)),
{
    match Settings::with_identity(hyphenated_text(id), key).normalized_with(fresh) {
        Ok(settings) => Ok(settings),
        Err(e) => Err(SettingsError::Validation(e)),
    }
}

fn with_tag(result: Result<Settings, SettingsError>, replaced: Option<SettingsNoticeKind>) -> (tagged:
    Result<InitialSettings, SettingsError>)
    ensures
        match (result, tagged) {
            (Ok(s), Ok(initial)) => initial.settings == s && initial.replaced == replaced,
            (Err(e), Err(f)) => e == f,
            _ => false,
        },
{
    match result {
        Ok(settings) => Ok(InitialSettings { settings, replaced }),
        Err(e) => Err(e),
    }
}

fn copy_stored(stored: &StoredSettings) -> (copy: StoredSettings)
    ensures
        copy == *stored,
{
    match stored {
        StoredSettings::Missing => StoredSettings::Missing,
        StoredSettings::Unreadable => StoredSettings::Unreadable,
        StoredSettings::NotSettings => StoredSettings::NotSettings,
        StoredSettings::Value(value) => StoredSettings::Value(value.clone()),
    }
}

/// Decides which settings the application starts with, given what is drawn at random.
pub fn load_initial_settings_with(
    stored: StoredSettings,
    fresh: [u8; 16],
    id: [u8; 16],
    key: String,
) -> (result: Result<InitialSettings, SettingsError>)
    ensures
        initial_is(result, initial_outcome(stored, fresh@, id@, key@)),
{
    let copy = copy_stored(&stored);
    match Settings::load_with(copy, fresh) {
        Ok(settings) => Ok(InitialSettings { settings, replaced: None }),
        Err(SettingsError::NotFound) => with_tag(new_settings_with(id, key, fresh), None),
        Err(SettingsError::Validation(SettingsValidationError::LegacySharedCode)) => with_tag(
            Settings::migrated_with(stored, key, fresh),
            Some(SettingsNoticeKind::LegacyPairingMigrated),
        ),
        Err(SettingsError::Corrupt) => with_tag(
            new_settings_with(id, key, fresh),
            Some(SettingsNoticeKind::InvalidSettingsRecovered),
        ),
        Err(SettingsError::Validation(_)) => with_tag(
            new_settings_with(id, key, fresh),
            Some(SettingsNoticeKind::InvalidSettingsRecovered),
        ),
        Err(e) => Err(e),
    }
}

/// What is drawn at random for new settings.
pub open spec fn is_drawn(fresh: Seq<u8>, id: Seq<u8>, key: Seq<char>) -> bool {
    &&& settings::is_fresh_id(fresh)
    &&& settings::is_fresh_id(id)
    &&& settings::is_code(key)
    &&& settings::is_strong(key)
}

/// Decides which settings the application starts with.
pub fn load_initial_settings(stored: StoredSettings) -> (result: Result<
    InitialSettings,
    SettingsError,
>)
    ensures
        exists|fresh: Seq<u8>, id: Seq<u8>, key: Seq<char>|
            is_drawn(fresh, id, key) && initial_is(
                result,
                #[trigger] initial_outcome(stored, fresh, id, key),
            ),
{
    let fresh = random_uuid();
    let id = random_uuid();
    assert(fresh@[6] != 0);
    assert(id@[6] != 0);
    let key = generate_pairing_key();
    let ghost k = key@;
    let result = load_initial_settings_with(stored, fresh, id, key);
    assert(is_drawn(fresh@, id@, k));
    result
}

/// The settings that take effect in a running synchronization have changed.
pub open spec fn is_runtime_change(a: SettingsView, b: SettingsView) -> bool {
    a.max_item_bytes != b.max_item_bytes || is_discovery_change(a, b)
}

/// The settings that decide which devices are found have changed.
pub open spec fn is_discovery_change(a: SettingsView, b: SettingsView) -> bool {
    ||| a.device_id != b.device_id
    ||| a.shared_code != b.shared_code
    ||| a.enabled != b.enabled
    ||| a.local_ip != b.local_ip
    ||| a.listen_port != b.listen_port
    ||| a.poll_interval_ms != b.poll_interval_ms
    ||| a.encryption_enabled != b.encryption_enabled
}

/// Tells whether settings that take effect in a running synchronization have changed.
pub fn runtime_settings_changed(previous: &Settings, next: &Settings) -> (changed: bool)
    ensures
        changed == is_runtime_change(previous@, next@),
{
    previous.limits.max_item_bytes != next.limits.max_item_bytes || discovery_settings_changed(
        previous,
        next,
    )
}

/// Tells whether settings that decide which devices are found have changed.
pub fn discovery_settings_changed(previous: &Settings, next: &Settings) -> (changed: bool)
    ensures
        changed == is_discovery_change(previous@, next@),
{
    !same_text(&previous.sync.device_id, &next.sync.device_id) || !same_text(
        &previous.sync.shared_code,
        &next.sync.shared_code,
    ) || previous.sync.enabled != next.sync.enabled || !same_text(
        &previous.sync.local_ip,
        &next.sync.local_ip,
    ) || previous.sync.listen_port != next.sync.listen_port || previous.sync.poll_interval_ms
        != next.sync.poll_interval_ms || previous.security.encryption_enabled
        != next.security.encryption_enabled
}

fn settings_differ(previous: &Settings, next: &Settings) -> (changed: bool)
    ensures
        changed == (previous@ != next@),
{
    let changed = runtime_settings_changed(previous, next) || !same_text(
        &previous.ui.language,
        &next.ui.language,
    ) || previous.ui.launch_at_login != next.ui.launch_at_login;
    proof {
        if !changed {
            assert(previous@ =~= next@);
        }
    }
    changed
}

/// What follows a start of synchronization: an error to record, if devices cannot be
/// announced, or a failure.
pub fn runtime_started(presence: Result<(), String>, sync: Result<(), String>) -> (result: Result<
    Option<String>,
    String,
>)
    ensures
        match (sync, result) {
            (Err(e), Err(f)) => f@ == e@,
            (Ok(_), Ok(noted)) => transfers::text_option(noted) == match presence {
                Ok(_) => None,
                Err(e) => Some("mDNS presence unavailable: "@ + e@),
            },
            _ => false,
        },
{
    if let Err(e) = sync {
        return Err(e);
    }
    match presence {
        Ok(_) => Ok(None),
        Err(e) => {
            let mut message: String = "mDNS presence unavailable: ".to_owned();
            message.append(&e);
            Ok(Some(message))
        },
    }
}

/// A step of a change of settings that can fail.
#[derive(Debug, Clone, Copy, PartialEq, Eq, Structural)]
pub enum UpdateStage {
    ApplyRuntime,
    Persist,
}

/// A step in words.
pub open spec fn stage_text(stage: UpdateStage) -> Seq<char> {
    match stage {
        UpdateStage::ApplyRuntime => "apply runtime settings"@,
        UpdateStage::Persist => "persist settings"@,
    }
}

/// Success, or an error in words, as plain values.
pub open spec fn unit_result(r: Result<(), String>) -> Result<(), Seq<char>> {
    match r {
        Ok(_) => Ok(()),
        Err(e) => Err(e@),
    }
}

/// Words for a change of settings that failed.
pub open spec fn transaction_text(
    stage: UpdateStage,
    error: Seq<char>,
    rollback: Result<(), Seq<char>>,
) -> Seq<char> {
    let start = "failed to "@ + stage_text(stage) + ": "@ + error;
    match rollback {
        Ok(_) => start + "; previous runtime settings restored"@,
        Err(e) => start + "; runtime rollback also failed: "@ + e,
    }
}

/// Puts a failed change of settings in words.
pub fn transaction_error(stage: UpdateStage, error: &str, rollback: &Result<(), String>) -> (message:
    String)
    ensures
        message@ == transaction_text(stage, error@, unit_result(*rollback)),
{
    let mut message: String = "failed to ".to_owned();
    message.append(
        match stage {
            UpdateStage::ApplyRuntime => "apply runtime settings",
            UpdateStage::Persist => "persist settings",
        },
    );
    message.append(": ");
    message.append(error);
    match rollback {
        Ok(_) => {
            message.append("; previous runtime settings restored");
        },
        Err(e) => {
            message.append("; runtime rollback also failed: ");
            message.append(e);
        },
    }
    message
}

/// A change of settings that was asked for.
#[derive(Debug)]
pub struct UpdatePlan {
    pub next: Settings,
    /// Anything changes.
    pub settings_changed: bool,
    /// What decides which devices are found changes.
    pub discovery_changed: bool,
    /// Synchronization has to be started anew.
    pub apply_runtime: bool,
}

/// A plan is the one for a change from some settings to others.
pub open spec fn is_plan(
    plan: UpdatePlan,
    previous: SettingsView,
    next: SettingsView,
    was_running: bool,
) -> bool {
    &&& plan.next@ == next
    &&& plan.settings_changed == (previous != next)
    &&& plan.discovery_changed == is_discovery_change(previous, next)
    &&& plan.apply_runtime == (is_runtime_change(previous, next) || !was_running)
}

/// Plans a change of settings, given the settings that it leads to. What starts
/// synchronization anew is refused while something is transferred.
pub fn plan_change(
    previous: &Settings,
    next: Settings,
    was_running: bool,
    has_active_transfers: bool,
) -> (result: Result<UpdatePlan, String>)
    ensures
        ({
            let restarts = is_runtime_change(previous@, next@) || !was_running;
            match result {
                Ok(plan) => is_plan(plan, previous@, next@, was_running) && !(restarts
                    && has_active_transfers),
                Err(e) => restarts && has_active_transfers && e@
                    == "settings that restart synchronization cannot be applied during an active transfer"@,
            }
        }),
{
    let settings_changed = settings_differ(previous, &next);
    let discovery_changed = discovery_settings_changed(previous, &next);
    let apply_runtime = runtime_settings_changed(previous, &next) || !was_running;
    if apply_runtime && has_active_transfers {
        return Err(
            "settings that restart synchronization cannot be applied during an active transfer".to_owned(),
        );
    }
    Ok(UpdatePlan { next, settings_changed, discovery_changed, apply_runtime })
}

/// Plans what the user asked to change. Settings that are not acceptable are refused in
/// the words of the rule that they break.
pub fn plan_update(
    previous: &Settings,
    update: SettingsUpdate,
    was_running: bool,
    has_active_transfers: bool,
) -> (result: Result<UpdatePlan, String>)
    ensures
        exists|fresh: Seq<u8>|
            settings::is_fresh_id(fresh) && match #[trigger] settings::normal_settings(
                settings::updated_settings(previous@, update),
                fresh,
            ) {
                Err(e) => result is Err && result->Err_0@ == e.spec_message(),
                Ok(next) => {
                    let restarts = is_runtime_change(previous@, next) || !was_running;
                    match result {
                        Ok(plan) => is_plan(plan, previous@, next, was_running) && !(restarts
                            && has_active_transfers),
                        Err(e) => restarts && has_active_transfers && e@
                            == "settings that restart synchronization cannot be applied during an active transfer"@,
                    }
                },
            },
{
    match previous.apply_update(update) {
        Ok(next) => plan_change(previous, next, was_running, has_active_transfers),
        Err(e) => Err(e.message().to_owned()),
    }
}

/// What has happened in a change of settings.
#[derive(Debug)]
pub enum UpdateEvent {
    Planned,
    RuntimeApplied(Result<(), String>),
    Saved(Result<(), String>),
    /// Synchronization was started anew with the previous settings.
    RolledBack { stage: UpdateStage, error: String, outcome: Result<(), String> },
}

/// What is done to the list of known devices at the end of a change of settings.
#[derive(Debug, Clone, Copy, PartialEq, Eq, Structural)]
pub enum CacheAction {
    /// Nothing happened to it.
    Keep,
    /// Put back what was known before synchronization was started anew.
    Restore,
    Clear,
}

/// What is done next in a change of settings.
#[derive(Debug)]
pub enum UpdateAction {
    /// Start synchronization anew with the new settings.
    ApplyRuntime,
    /// Write the new settings to the file.
    Save,
    /// Start synchronization anew with the previous settings.
    RollBack { stage: UpdateStage, error: String },
    /// The change is done. New settings count from now on; scans that were asked for
    /// under others are void.
    Commit { publish: bool, new_revision: bool, cache: CacheAction },
    /// The change failed; the previous settings stay.
    Fail { message: String, cache: CacheAction },
}

/// What is done next, as plain values.
#[verifier::ext_equal]
pub enum ActionView {
    ApplyRuntime,
    Save,
    RollBack(UpdateStage, Seq<char>),
    Commit(bool, bool, CacheAction),
    Fail(Seq<char>, CacheAction),
}

impl View for UpdateAction {
    type V = ActionView;

    open spec fn view(&self) -> ActionView {
        match self {
            UpdateAction::ApplyRuntime => ActionView::ApplyRuntime,
            UpdateAction::Save => ActionView::Save,
            UpdateAction::RollBack { stage, error } => ActionView::RollBack(*stage, error@),
            UpdateAction::Commit { publish, new_revision, cache } => ActionView::Commit(
                *publish,
                *new_revision,
                *cache,
            ),
            UpdateAction::Fail { message, cache } => ActionView::Fail(message@, *cache),
        }
    }
}

/// How a change of settings ends well.
pub open spec fn committed(plan: UpdatePlan) -> ActionView {
    ActionView::Commit(
        plan.settings_changed,
        plan.settings_changed && plan.discovery_changed,
        if plan.discovery_changed {
            CacheAction::Clear
        } else if plan.apply_runtime {
            CacheAction::Restore
        } else {
            CacheAction::Keep
        },
    )
}

/// What follows once synchronization runs with the new settings.
pub open spec fn after_runtime(plan: UpdatePlan) -> ActionView {
    if plan.settings_changed {
        ActionView::Save
    } else {
        committed(plan)
    }
}

/// What is done next in a change of settings: first synchronization is started anew, then
/// the settings are saved. A failure is rolled back.
pub open spec fn action_after(plan: UpdatePlan, event: UpdateEvent) -> ActionView {
    match event {
        UpdateEvent::Planned => if plan.apply_runtime {
            ActionView::ApplyRuntime
        } else {
            after_runtime(plan)
        },
        UpdateEvent::RuntimeApplied(Ok(_)) => after_runtime(plan),
        UpdateEvent::RuntimeApplied(Err(e)) => ActionView::RollBack(
            UpdateStage::ApplyRuntime,
            e@,
        ),
        UpdateEvent::Saved(Ok(_)) => committed(plan),
        UpdateEvent::Saved(Err(e)) => if plan.apply_runtime {
            ActionView::RollBack(UpdateStage::Persist, e@)
        } else {
            ActionView::Fail(transaction_text(UpdateStage::Persist, e@, Ok(())), CacheAction::Keep)
        },
        UpdateEvent::RolledBack { stage, error, outcome } => ActionView::Fail(
            transaction_text(stage, error@, unit_result(outcome)),
            CacheAction::Restore,
        ),
    }
}

fn commit(plan: &UpdatePlan) -> (action: UpdateAction)
    ensures
        action@ == committed(*plan),
{
    UpdateAction::Commit {
        publish: plan.settings_changed,
        new_revision: plan.settings_changed && plan.discovery_changed,
        cache: if plan.discovery_changed {
            CacheAction::Clear
        } else if plan.apply_runtime {
            CacheAction::Restore
        } else {
            CacheAction::Keep
        },
    }
}

fn save_or_commit(plan: &UpdatePlan) -> (action: UpdateAction)
    ensures
        action@ == after_runtime(*plan),
{
    if plan.settings_changed {
        UpdateAction::Save
    } else {
        commit(plan)
    }
}

/// Decides what is done next in a change of settings.
pub fn next_update_action(plan: &UpdatePlan, event: UpdateEvent) -> (action: UpdateAction)
    ensures
        action@ == action_after(*plan, event),
{
    match event {
        UpdateEvent::Planned => if plan.apply_runtime {
            UpdateAction::ApplyRuntime
        } else {
            save_or_commit(plan)
        },
        UpdateEvent::RuntimeApplied(Ok(_)) => save_or_commit(plan),
        UpdateEvent::RuntimeApplied(Err(error)) => UpdateAction::RollBack {
            stage: UpdateStage::ApplyRuntime,
            error,
        },
        UpdateEvent::Saved(Ok(_)) => commit(plan),
        UpdateEvent::Saved(Err(error)) => {
            if plan.apply_runtime {
                UpdateAction::RollBack { stage: UpdateStage::Persist, error }
            } else {
                let done: Result<(), String> = Ok(());
                UpdateAction::Fail {
                    message: transaction_error(UpdateStage::Persist, &error, &done),
                    cache: CacheAction::Keep,
                }
            }
        },
        UpdateEvent::RolledBack { stage, error, outcome } => UpdateAction::Fail {
            message: transaction_error(stage, &error, &outcome),
            cache: CacheAction::Restore,
        },
    }
}

/// Refuses the result of a scan that was asked for under other settings.
pub fn ensure_current_revision(current_revision: u64, expected_revision: u64) -> (result: Result<
    (),
    &'static str,
>)
    ensures
        match result {
            Ok(_) => current_revision == expected_revision,
            Err(e) => current_revision != expected_revision && e@
                == "discovery result discarded because settings changed"@,
        },
{
    if current_revision != expected_revision {
        return Err("discovery result discarded because settings changed");
    }
    Ok(())
}

/// An address is among those of the interfaces.
pub open spec fn is_offered(ip: Seq<char>, interfaces: Seq<NetworkInterfaceOption>) -> bool {
    exists|i: int| 0 <= i < interfaces.len() && (#[trigger] interfaces[i]).ip@ == ip
}

/// Tells whether an address is among those of the interfaces.
pub fn selected_ip_is_assigned(selected: &str, interfaces: &Vec<NetworkInterfaceOption>) -> (assigned:
    bool)
    ensures
        assigned == is_offered(selected@, interfaces@),
{
    let mut i: usize = 0;
    while i < interfaces.len()
        invariant
            i <= interfaces.len(),
            forall|j: int| 0 <= j < i ==> (#[trigger] interfaces@[j]).ip@ != selected@,
        decreases interfaces.len() - i,
    {
        if same_text(&interfaces[i].ip, selected) {
            return true;
        }
        i = i + 1;
    }
    false
}

/// The address that the user selected for a scan: none, or one of this machine in its
/// usual form.
pub open spec fn selection(value: Option<Seq<char>>, interfaces: Seq<NetworkInterfaceOption>) -> Result<
    Option<Seq<char>>,
    Seq<char>,
> {
    match value {
        None => Ok(None),
        Some(v) => {
            let t = text::trimmed(v);
            if t.len() == 0 {
                Ok(None)
            } else if encode_utf8(t).len() > MAX_IP_TEXT_BYTES {
                Err("selected local ip is too long"@)
            } else {
                match ipv4::ipv4_of(t) {
                    None => Err("selected local ip must be a valid IPv4 address"@),
                    Some(ip) => if is_offered(ipv4::ipv4_text(ip), interfaces) {
                        Ok(Some(ipv4::ipv4_text(ip)))
                    } else {
                        Err("selected local ip is not assigned on this machine"@)
                    },
                }
            }
        },
    }
}

/// Reads the address that the user selected for a scan.
pub fn validate_discovery_selection(
    value: Option<String>,
    interfaces: &Vec<NetworkInterfaceOption>,
) -> (result: Result<Option<String>, &'static str>)
    ensures
        ({
            let expected = selection(transfers::text_option(value), interfaces@);
            match result {
                Ok(ip) => expected == Ok::<Option<Seq<char>>, Seq<char>>(
                    transfers::text_option(ip),
                ),
                Err(e) => expected == Err::<Option<Seq<char>>, Seq<char>>(e@),
            }
        }),
{
    let value = match value {
        Some(value) => value,
        None => return Ok(None),
    };
    let trimmed = trim(&value);
    if trimmed.as_str().is_empty() {
        return Ok(None);
    }
    if byte_len(&trimmed) > MAX_IP_TEXT_BYTES {
        return Err("selected local ip is too long");
    }
    match parse_ipv4(&trimmed) {
        None => Err("selected local ip must be a valid IPv4 address"),
        Some(ip) => {
            let selected = ipv4_to_text(&ip);
            if !selected_ip_is_assigned(&selected, interfaces) {
                return Err("selected local ip is not assigned on this machine");
            }
            Ok(Some(selected))
        },
    }
}

/// New settings count only once they are saved.
pub proof fn only_saved_settings_count(plan: UpdatePlan, event: UpdateEvent)
    ensures
        action_after(plan, event) matches ActionView::Commit(true, _, _) ==> event
            matches UpdateEvent::Saved(Ok(_)),
{
}

/// Once synchronization was started with the new settings, a failure never ends the
/// change before the previous settings were put back.
pub proof fn failures_are_rolled_back(plan: UpdatePlan, event: UpdateEvent)
    requires
        plan.apply_runtime,
    ensures
        action_after(plan, event) is Fail ==> event is RolledBack,
        (event matches UpdateEvent::RuntimeApplied(Err(_))) || (event matches UpdateEvent::Saved(
            Err(_),
        )) ==> action_after(plan, event) is RollBack,
{
}

/// What concerns the user interface alone never restarts synchronization.
pub proof fn interface_settings_do_not_restart(
    s: SettingsView,
    language: Seq<char>,
    launch_at_login: bool,
)
    ensures
        !is_runtime_change(s, SettingsView { language, launch_at_login, ..s }),
        !is_discovery_change(s, SettingsView { language, launch_at_login, ..s }),
{
}

/// With a strong key the application starts whatever the settings file holds, unless the
/// file cannot be read or holds an old code beside settings that are not acceptable.
pub proof fn start_succeeds(stored: StoredSettings, fresh: Seq<u8>, id: Seq<u8>, key: Seq<char>)
    requires
        is_drawn(fresh, id, key),
        !(stored is Unreadable),
        !(settings::loaded_settings(stored, fresh) matches Err(
            SettingsError::Validation(SettingsValidationError::LegacySharedCode),
        )),
    ensures
        initial_outcome(stored, fresh, id, key) is Ok,
{
    settings::defaults_are_normal(id, key, fresh);
}

/// Each setting that a running synchronization uses restarts it when it changes, and nothing
/// else does; all of them but the limit decide which devices are found.
pub proof fn settings_in_use_restart(a: SettingsView, b: SettingsView)
    ensures
        a.device_id != b.device_id || a.shared_code != b.shared_code || a.enabled != b.enabled
            || a.local_ip != b.local_ip || a.listen_port != b.listen_port || a.poll_interval_ms
            != b.poll_interval_ms || a.encryption_enabled != b.encryption_enabled
            ==> is_discovery_change(a, b) && is_runtime_change(a, b),
        a.max_item_bytes != b.max_item_bytes ==> is_runtime_change(a, b),
        a == (SettingsView {
            max_item_bytes: a.max_item_bytes,
            language: a.language,
            launch_at_login: a.launch_at_login,
            ..b
        }) ==> !is_discovery_change(a, b) && (is_runtime_change(a, b) <==> a.max_item_bytes
            != b.max_item_bytes),
{
}

/// A change of settings goes its way in this order: synchronization is started anew where
/// that is needed, what has changed is saved, and then the change is done. The list of known
/// devices is dropped if others are found from now on, and kept otherwise.
pub proof fn changes_go_their_way(plan: UpdatePlan)
    ensures
        plan.apply_runtime ==> action_after(plan, UpdateEvent::Planned) == ActionView::ApplyRuntime,
        !plan.apply_runtime && plan.settings_changed ==> action_after(plan, UpdateEvent::Planned)
            == ActionView::Save,
        plan.settings_changed ==> action_after(plan, UpdateEvent::RuntimeApplied(Ok(())))
            == ActionView::Save,
        !plan.settings_changed && !plan.apply_runtime ==> action_after(plan, UpdateEvent::Planned)
            is Commit,
        !plan.settings_changed ==> action_after(plan, UpdateEvent::RuntimeApplied(Ok(()))) is Commit,
        ({
            let done = action_after(plan, UpdateEvent::Saved(Ok(())));
            &&& done is Commit
            &&& done->Commit_0 == plan.settings_changed
            &&& done->Commit_1 == (plan.settings_changed && plan.discovery_changed)
            &&& plan.discovery_changed ==> done->Commit_2 == CacheAction::Clear
            &&& !plan.discovery_changed && plan.apply_runtime ==> done->Commit_2
                == CacheAction::Restore
            &&& !plan.discovery_changed && !plan.apply_runtime ==> done->Commit_2
                == CacheAction::Keep
        }),
{
}

/// A failure names its step and its reason, and what became of the previous settings.
pub proof fn failures_say_what_went_wrong(plan: UpdatePlan, error: String, other: String)
    ensures
        ({
            let failed = action_after(plan, UpdateEvent::RuntimeApplied(Err(error)));
            failed == ActionView::RollBack(UpdateStage::ApplyRuntime, error@)
        }),
        plan.apply_runtime ==> action_after(plan, UpdateEvent::Saved(Err(error)))
            == ActionView::RollBack(UpdateStage::Persist, error@),
        !plan.apply_runtime ==> action_after(plan, UpdateEvent::Saved(Err(error))) is Fail,
        action_after(
            plan,
            UpdateEvent::RolledBack {
                stage: UpdateStage::ApplyRuntime,
                error,
                outcome: Ok(()),
            },
        ) == ActionView::Fail(
            "failed to "@ + "apply runtime settings"@ + ": "@ + error@
                + "; previous runtime settings restored"@,
            CacheAction::Restore,
        ),
        action_after(
            plan,
            UpdateEvent::RolledBack { stage: UpdateStage::Persist, error, outcome: Err(other) },
        ) == ActionView::Fail(
            "failed to "@ + "persist settings"@ + ": "@ + error@
                + "; runtime rollback also failed: "@ + other@,
            CacheAction::Restore,
        ),
{
}

/// The application starts with the stored settings as they are, without a notice, if they are
/// acceptable; with those of a new device if there are none; and not at all, leaving the file
/// alone, if it cannot be read.
pub proof fn stored_settings_are_used(
    stored: StoredSettings,
    fresh: Seq<u8>,
    id: Seq<u8>,
    key: Seq<char>,
)
    requires
        is_drawn(fresh, id, key),
    ensures
        settings::loaded_settings(stored, fresh) is Ok ==> initial_outcome(stored, fresh, id, key)
            == Ok::<_, SettingsError>((settings::loaded_settings(stored, fresh)->Ok_0, None::<SettingsNoticeKind>)),
        stored is Missing ==> initial_outcome(stored, fresh, id, key) == Ok::<_, SettingsError>(
            (
                settings::default_settings(uuid_text::hyphenated(id), key),
                None::<SettingsNoticeKind>,
            ),
        ),
        stored is NotSettings ==> initial_outcome(stored, fresh, id, key) == Ok::<_, SettingsError>(
            (
                settings::default_settings(uuid_text::hyphenated(id), key),
                Some(SettingsNoticeKind::InvalidSettingsRecovered),
            ),
        ),
        stored is Unreadable ==> initial_outcome(stored, fresh, id, key) == Err::<
            (SettingsView, Option<SettingsNoticeKind>),
            _,
        >(SettingsError::Io),
{
    settings::defaults_are_normal(id, key, fresh);
}

proof fn address_texts_are_short(ip: Seq<u8>)
    requires
        ip.len() == 4,
    ensures
        ({
            let t = ipv4::ipv4_text(ip);
            &&& t.len() > 0
            &&& is_ascii_chars(t)
            &&& t.len() <= 15
            &&& !text::is_white(t[0])
            &&& !text::is_white(t.last())
        }),
{
    ipv4::decimal_is_read_back(ip[0] as nat);
    ipv4::decimal_is_read_back(ip[1] as nat);
    ipv4::decimal_is_read_back(ip[2] as nat);
    ipv4::decimal_is_read_back(ip[3] as nat);
    let t = ipv4::ipv4_text(ip);
    let a = text::decimal(ip[0] as nat);
    let b = text::decimal(ip[1] as nat);
    let c = text::decimal(ip[2] as nat);
    let d = text::decimal(ip[3] as nat);
    assert(t[0] == a[0]);
    assert(t.last() == d.last());
    assert(ipv4::is_digit(a[0]));
    assert(ipv4::is_digit(d[d.len() - 1]));
    assert forall|i: int| 0 <= i < t.len() implies '\0' <= #[trigger] t[i] <= '\u{7f}' by {
        let p = a.len() as int;
        let q = p + 1 + b.len();
        let r = q + 1 + c.len();
        if i < p {
            assert(t[i] == a[i]);
        } else if p < i < q {
            assert(t[i] == b[i - p - 1]);
        } else if q < i < r {
            assert(t[i] == c[i - q - 1]);
        } else if r < i {
            assert(t[i] == d[i - r - 1]);
        } else {
            assert(t[i] == '.');
        }
    }
}

/// Every address of this machine can be selected for a scan, and no other one; nothing but
/// white space selects none.
pub proof fn assigned_addresses_can_be_selected(
    ip: Seq<u8>,
    interfaces: Seq<NetworkInterfaceOption>,
    blank: Seq<char>,
)
    requires
        ip.len() == 4,
        text::trimmed(blank).len() == 0,
    ensures
        ({
            let offered = exists|i: int|
                0 <= i < interfaces.len() && (#[trigger] interfaces[i]).ip@ == ipv4::ipv4_text(ip);
            let selected = selection(Some(ipv4::ipv4_text(ip)), interfaces);
            &&& offered ==> selected == Ok::<_, Seq<char>>(Some(ipv4::ipv4_text(ip)))
            &&& !offered ==> selected == Err::<Option<Seq<char>>, _>(
                "selected local ip is not assigned on this machine"@,
            )
        }),
        selection(None, interfaces) == Ok::<Option<Seq<char>>, Seq<char>>(None),
        selection(Some(blank), interfaces) == Ok::<Option<Seq<char>>, Seq<char>>(None),
{
    let t = ipv4::ipv4_text(ip);
    address_texts_are_short(ip);
    text::trim_keeps(t);
    is_ascii_chars_encode_utf8(t);
    ipv4::ipv4_text_is_read_back(ip);
}

/// A plan leads to the new settings and says exactly what they change: anything at all, what
/// decides which devices are found, and whether synchronization is started anew, which it is, too,
/// if it was not running.
pub proof fn plans_say_what_changes(
    plan: UpdatePlan,
    previous: SettingsView,
    next: SettingsView,
    was_running: bool,
)
    requires
        is_plan(plan, previous, next, was_running),
    ensures
        plan.next@ == next,
        plan.settings_changed <==> previous != next,
        !was_running ==> plan.apply_runtime,
        previous == next && was_running ==> !plan.apply_runtime && !plan.discovery_changed
            && !plan.settings_changed,
        previous.shared_code != next.shared_code || previous.local_ip != next.local_ip
            || previous.listen_port != next.listen_port || previous.device_id != next.device_id
            ==> plan.apply_runtime && plan.discovery_changed && plan.settings_changed,
        previous.max_item_bytes != next.max_item_bytes ==> plan.apply_runtime
            && plan.settings_changed,
        next == (SettingsView {
            language: next.language,
            launch_at_login: next.launch_at_login,
            ..previous
        }) && was_running ==> !plan.apply_runtime && !plan.discovery_changed,
{
}

/// Stored settings that are not acceptable for another reason than an old code are replaced by
/// those of a new device, and the user is told.
pub proof fn unacceptable_settings_are_replaced(
    value: Settings,
    fresh: Seq<u8>,
    id: Seq<u8>,
    key: Seq<char>,
)
    requires
        is_drawn(fresh, id, key),
        settings::normal_settings(value@, fresh) is Err,
        settings::normal_settings(value@, fresh)->Err_0 != SettingsValidationError::LegacySharedCode,
    ensures
        initial_outcome(StoredSettings::Value(value), fresh, id, key) == Ok::<_, SettingsError>(
            (
                settings::default_settings(uuid_text::hyphenated(id), key),
                Some(SettingsNoticeKind::InvalidSettingsRecovered),
            ),
        ),
{
    settings::defaults_are_normal(id, key, fresh);
}

/// Stored settings with an old code that are otherwise acceptable get a new code and keep
/// everything else, and the user is told.
pub proof fn old_codes_are_replaced(
    value: Settings,
    b: Seq<u8>,
    fresh: Seq<u8>,
    id: Seq<u8>,
    key: Seq<char>,
)
    requires
        is_drawn(fresh, id, key),
        ({
            let code = settings::canonical_code(value@.shared_code);
            code.len() == 6 && forall|i: int| 0 <= i < 6 ==> '0' <= #[trigger] code[i] <= '9'
        }),
        b.len() == 16,
        exists|i: int| 0 <= i < 16 && #[trigger] b[i] != 0,
        value@.device_id == uuid_text::hyphenated(b),
        1024 <= value@.listen_port,
        1 <= value@.poll_interval_ms <= 60_000,
        1 <= value@.max_item_bytes <= 1_048_576_000,
    ensures
        ({
            let found = initial_outcome(StoredSettings::Value(value), fresh, id, key);
            &&& found is Ok
            &&& found->Ok_0.1 == Some(SettingsNoticeKind::LegacyPairingMigrated)
            &&& found->Ok_0.0.shared_code == key
            &&& found->Ok_0.0.device_id == value@.device_id
            &&& found->Ok_0.0.listen_port == value@.listen_port
            &&& found->Ok_0.0.max_item_bytes == value@.max_item_bytes
        }),
{
    settings::migration_changes_the_code_alone(value, key, b, fresh);
    settings::unacceptable_settings_are_refused(value@, fresh);
}

} // verus!
