//! Settings, the commands that change them, and private storage.

use lan_clipboard::clipboard::path_policy::EntryKind;
use lan_clipboard::commands::{
    discovery_settings_changed, ensure_current_revision, load_initial_settings,
    load_initial_settings_with, next_update_action, plan_change, plan_update, runtime_settings_changed,
    runtime_started, selected_ip_is_assigned, transaction_error, validate_discovery_selection,
    CacheAction, UpdateAction, UpdateEvent, UpdateStage,
};
use lan_clipboard::net::discovery::NetworkInterfaceOption;
use lan_clipboard::settings::{
    canonicalize_shared_code, free_places, generate_pairing_key, is_strong_shared_code,
    is_valid_shared_code, new_backup_name, new_device_id, new_temporary_name, next_backup_name,
    pairing_key_of, Settings, SettingsError, SettingsNoticeKind, SettingsUpdate,
    SettingsValidationError, StoredSettings, MAX_ITEM_BYTES, MAX_POLL_INTERVAL_MS,
    SHARED_CODE_LENGTH,
};
use lan_clipboard::state::{DiscoveryRequest, DiscoverySingleflight};
use lan_clipboard::storage::{
    check_private_directory, reject_symlink_or_non_file, secure_runtime_subdir,
    validate_open_runtime_file,
};
use std::collections::HashSet;
use uuid::Uuid;

fn defaults() -> Settings {
    Settings::default()
}

fn update_of(settings: &Settings) -> SettingsUpdate {
    SettingsUpdate {
        max_item_bytes: settings.limits.max_item_bytes,
        shared_code: settings.sync.shared_code.clone(),
        local_ip: settings.sync.local_ip.clone(),
        language: settings.ui.language.clone(),
        launch_at_login: settings.ui.launch_at_login,
    }
}

#[test]
fn default_settings_use_high_entropy_shared_code() {
    let settings = defaults().normalized().expect("valid defaults");
    assert_eq!(settings.sync.shared_code.len(), SHARED_CODE_LENGTH);
    assert!(is_valid_shared_code(&settings.sync.shared_code));
    assert!(is_strong_shared_code(&settings.sync.shared_code));
    assert!(Uuid::parse_str(&settings.sync.device_id).is_ok());
}

#[test]
fn generated_pairing_keys_are_valid_and_not_reused() {
    let keys = (0..16)
        .map(|_| generate_pairing_key())
        .collect::<HashSet<_>>();
    assert_eq!(keys.len(), 16);
    assert!(keys.iter().all(|key| is_valid_shared_code(key) && is_strong_shared_code(key)));
}

#[test]
fn weak_shared_codes_are_rejected_after_format_validation() {
    for weak_code in ["AAAAAAAAAAAAAAAAAAAAAAAAAA", "ABCDEFGHJKLMABCDEFGHJKLMAB"] {
        let mut settings = defaults();
        settings.sync.shared_code = weak_code.to_string();
        assert_eq!(
            settings.normalized().expect_err("weak code must fail"),
            SettingsValidationError::WeakSharedCode
        );
    }

    for weak_code in ["ABCDEFGHJKLMNABCDEFGHJKLMN", "ABCDEFGHJKLMNPQRSTUVWXYZ23"] {
        let mut settings = defaults();
        settings.sync.shared_code = weak_code.to_string();
        assert_eq!(
            settings.normalized().expect_err("obvious pattern must fail"),
            SettingsValidationError::WeakSharedCode
        );
    }
}

#[test]
fn normalization_trims_and_canonicalizes_identifiers() {
    let mut settings = defaults();
    let lowercase_code = settings.sync.shared_code.to_lowercase();
    settings.sync.shared_code = format!("  {}-{}  ", &lowercase_code[..13], &lowercase_code[13..]);
    settings.sync.device_id = settings.sync.device_id.to_uppercase();
    settings.sync.local_ip = " 192.168.1.20 ".to_string();

    let normalized = settings.normalized().expect("normalize settings");
    assert!(is_valid_shared_code(&normalized.sync.shared_code));
    assert_eq!(normalized.sync.local_ip, "192.168.1.20");
    assert_eq!(
        normalized.sync.device_id,
        Uuid::parse_str(&normalized.sync.device_id)
            .expect("canonical UUID")
            .hyphenated()
            .to_string()
    );
}

#[test]
fn legacy_shared_code_requires_migration() {
    let mut settings = defaults();
    settings.sync.shared_code = "123456".to_string();
    assert_eq!(
        settings.normalized().expect_err("legacy code must fail"),
        SettingsValidationError::LegacySharedCode
    );
}

#[test]
fn invalid_limits_and_ports_are_rejected() {
    let mut invalid_port = defaults();
    invalid_port.sync.listen_port = 0;
    assert_eq!(
        invalid_port.normalized().expect_err("port must fail"),
        SettingsValidationError::InvalidListenPort
    );

    let mut invalid_size = defaults();
    invalid_size.limits.max_item_bytes = MAX_ITEM_BYTES + 1;
    assert_eq!(
        invalid_size.normalized().expect_err("size must fail"),
        SettingsValidationError::InvalidMaxItemBytes
    );

    let mut empty_size = defaults();
    empty_size.limits.max_item_bytes = 0;
    assert_eq!(
        empty_size.normalized().expect_err("zero size must fail"),
        SettingsValidationError::InvalidMaxItemBytes
    );
}

#[test]
fn settings_update_preserves_owned_fields_and_exact_byte_limit() {
    let mut current = defaults();
    current.sync.enabled = false;
    current.sync.listen_port = 43123;
    current.sync.poll_interval_ms = 1_234;
    current.security.encryption_enabled = false;
    let device_id = current.sync.device_id.clone();
    let shared_code = current.sync.shared_code.clone();

    let next = current
        .apply_update(SettingsUpdate {
            max_item_bytes: 256 * 1024,
            shared_code,
            local_ip: " 192.168.50.4 ".to_string(),
            language: " zh-CN ".to_string(),
            launch_at_login: true,
        })
        .expect("apply settings update");

    assert_eq!(next.limits.max_item_bytes, 256 * 1024);
    assert_eq!(next.sync.device_id, device_id);
    assert_eq!(next.sync.listen_port, 43123);
    assert_eq!(next.sync.poll_interval_ms, 1_234);
    assert_eq!(next.sync.local_ip, "192.168.50.4");
    assert!(next.sync.enabled);
    assert!(next.security.encryption_enabled);
    assert_eq!(next.ui.language, "zh-CN");
    assert!(next.ui.launch_at_login);
}

#[test]
fn load_distinguishes_missing_corrupt_and_io_errors() {
    assert_eq!(Settings::load(StoredSettings::Missing).unwrap_err(), SettingsError::NotFound);
    assert_eq!(Settings::load(StoredSettings::NotSettings).unwrap_err(), SettingsError::Corrupt);
    assert_eq!(Settings::load(StoredSettings::Unreadable).unwrap_err(), SettingsError::Io);
}

#[test]
fn saved_settings_are_loaded_again() {
    let settings = defaults().normalized().expect("valid settings");
    let saved = settings.save().expect("save settings");
    assert_eq!(saved, settings);
    assert_eq!(Settings::load(StoredSettings::Value(saved)).expect("load settings"), settings);

    let again = settings.clone().normalized().expect("normal settings");
    assert_eq!(again, settings);

    let mut wrong = defaults();
    wrong.sync.poll_interval_ms = MAX_POLL_INTERVAL_MS + 1;
    assert_eq!(
        wrong.save().unwrap_err(),
        SettingsError::Validation(SettingsValidationError::InvalidPollInterval)
    );
}

#[test]
fn legacy_migration_uses_the_same_canonicalization_as_validation() {
    for code in ["123456", " 123-456 "] {
        let mut legacy = defaults();
        legacy.sync.shared_code = code.to_string();
        let error = Settings::load(StoredSettings::Value(legacy.clone()))
            .expect_err("legacy load must request migration");
        assert!(error.is_legacy_shared_code());
        let device_id = legacy.sync.device_id.clone();
        let migrated = Settings::migrate_legacy_shared_code(StoredSettings::Value(legacy))
            .expect("migrate legacy settings");
        assert!(is_valid_shared_code(&migrated.sync.shared_code));
        assert!(is_strong_shared_code(&migrated.sync.shared_code));
        assert_ne!(migrated.sync.shared_code, "123456");
        assert_eq!(migrated.sync.device_id, device_id);
        assert_eq!(
            Settings::load(StoredSettings::Value(migrated.clone())).expect("load migrated settings"),
            migrated
        );
    }
    let current = defaults();
    assert!(Settings::migrate_legacy_shared_code(StoredSettings::Value(current)).is_err());
}

#[test]
fn backups_get_a_name_of_their_own() {
    let fresh = Uuid::from_u128(7).into_bytes();
    assert_eq!(
        next_backup_name(SettingsNoticeKind::LegacyPairingMigrated, false, fresh),
        "settings.legacy-v3.json"
    );
    assert_eq!(
        next_backup_name(SettingsNoticeKind::InvalidSettingsRecovered, false, fresh),
        "settings.invalid-v4.json"
    );
    let other = next_backup_name(SettingsNoticeKind::LegacyPairingMigrated, true, fresh);
    assert_ne!(other, "settings.legacy-v3.json");
    assert!(other.contains(&Uuid::from_u128(7).hyphenated().to_string()));
}

#[test]
fn names_of_new_files_are_their_own() {
    let kind = SettingsNoticeKind::InvalidSettingsRecovered;
    assert_eq!(new_backup_name(kind, false), "settings.invalid-v4.json");
    let taken = new_backup_name(kind, true);
    assert_ne!(taken, new_backup_name(kind, true));
    let id = taken
        .strip_prefix("settings.invalid-v4.")
        .and_then(|rest| rest.strip_suffix(".json"))
        .expect("named after an identifier");
    assert!(Uuid::parse_str(id).is_ok());
    let temporary = new_temporary_name("settings.json");
    assert!(temporary.starts_with(".settings.json.") && temporary.ends_with(".tmp"));
    assert_eq!(temporary.len(), ".settings.json.".len() + 36 + ".tmp".len());
}

#[test]
fn codes_are_canonical_without_separators() {
    assert_eq!(canonicalize_shared_code(" ab-cd ef "), "ABCDEF");
    assert!(is_valid_shared_code("ABCDEFGHJKLMNPQRSTUVWXYZ23"));
    assert!(!is_valid_shared_code("ABCDEFGHJKLMNPQRSTUVWXYZ2"));
    assert!(!is_valid_shared_code("ABCDEFGHJKLMNPQRSTUVWXYZ2!"));
    let mut settings = defaults();
    settings.sync.shared_code = "nonsense".to_string();
    assert_eq!(
        settings.normalized().unwrap_err(),
        SettingsValidationError::InvalidSharedCode
    );
    let mut settings = defaults();
    settings.sync.device_id = "nonsense".to_string();
    assert_eq!(settings.normalized().unwrap_err(), SettingsValidationError::InvalidDeviceId);
    assert!(!SettingsValidationError::InvalidDeviceId.message().is_empty());
}

#[test]
fn empty_device_ids_are_replaced() {
    let mut settings = defaults();
    settings.sync.device_id = "  ".to_string();
    let fresh = Uuid::from_u128(3).into_bytes();
    let normalized = settings.normalized_with(fresh).expect("normalize settings");
    assert_eq!(normalized.sync.device_id, Uuid::from_u128(3).hyphenated().to_string());
    assert_eq!(normalized.sync_device_id(), normalized.sync.device_id);
    assert_ne!(new_device_id(), new_device_id());
}

#[test]
fn initial_load_creates_valid_settings_only_when_missing() {
    let initial = load_initial_settings(StoredSettings::Missing).expect("initialize settings");
    assert!(initial.replaced.is_none());
    assert_eq!(initial.settings.sync.shared_code.len(), 26);
    let again = load_initial_settings(StoredSettings::Value(initial.settings.clone()))
        .expect("reload settings");
    assert!(again.replaced.is_none());
    assert_eq!(again.settings, initial.settings);
}

#[test]
fn initial_load_backs_up_corrupt_settings_and_recovers_with_notice() {
    let initial = load_initial_settings(StoredSettings::NotSettings).expect("recover settings");
    assert_eq!(initial.replaced, Some(SettingsNoticeKind::InvalidSettingsRecovered));
    assert!(is_strong_shared_code(&initial.settings.sync.shared_code));
}

#[test]
fn initial_load_still_reports_io_errors() {
    assert_eq!(load_initial_settings(StoredSettings::Unreadable).unwrap_err(), SettingsError::Io);
}

#[test]
fn initial_load_migrates_legacy_code_with_visible_notice() {
    let mut legacy = defaults();
    legacy.sync.shared_code = "123456".to_string();
    let initial = load_initial_settings(StoredSettings::Value(legacy)).expect("migrate settings");
    assert_eq!(initial.settings.sync.shared_code.len(), 26);
    assert_eq!(initial.replaced, Some(SettingsNoticeKind::LegacyPairingMigrated));
}

#[test]
fn initial_load_uses_what_was_drawn() {
    let key = generate_pairing_key();
    let initial =
        load_initial_settings_with(StoredSettings::Missing, [1; 16], [2; 16], key.clone())
            .expect("initialize settings");
    assert_eq!(initial.settings.sync.shared_code, key);
    assert_eq!(initial.settings.sync.device_id, "02020202-0202-0202-0202-020202020202");
    assert_eq!(initial.replaced, None);
}

#[test]
fn spread_draws_spell_strong_keys() {
    let mut draw = Vec::new();
    while draw.len() < SHARED_CODE_LENGTH {
        let places = free_places(&draw);
        assert!(!places.is_empty());
        draw.push(places[0]);
    }
    assert_eq!(&draw[..5], [0, 2, 4, 1, 3]);
    let key = pairing_key_of(&draw).expect("strong draw");
    assert!(is_strong_shared_code(&key));
    assert_eq!(free_places(&vec![0, 2, 4])[..3], [1, 6, 7]);
}

#[test]
fn runtime_change_detection_ignores_ui_only_updates() {
    let previous = defaults();
    let mut ui_only = previous.clone();
    ui_only.ui.language = "en-US".to_string();
    assert!(!runtime_settings_changed(&previous, &ui_only));

    let mut network_change = previous.clone();
    network_change.sync.listen_port += 1;
    assert!(runtime_settings_changed(&previous, &network_change));
    assert!(discovery_settings_changed(&previous, &network_change));

    let mut limit_change = previous.clone();
    limit_change.limits.max_item_bytes += 1;
    assert!(runtime_settings_changed(&previous, &limit_change));
    assert!(!discovery_settings_changed(&previous, &limit_change));
}

#[test]
fn stale_discovery_revision_is_rejected() {
    assert!(ensure_current_revision(4, 4).is_ok());
    assert!(ensure_current_revision(4, 3).is_err());
}

#[test]
fn discovery_singleflight_rejects_queued_scans_and_releases_leader() {
    let mut singleflight = DiscoverySingleflight::new();
    let request = DiscoveryRequest {
        settings_revision: 7,
        selected_local_ip: Some("192.168.1.2".to_string()),
    };
    let other = DiscoveryRequest {
        settings_revision: 7,
        selected_local_ip: Some("192.168.2.2".to_string()),
    };

    singleflight.claim(&request).expect("claim discovery leader");
    assert!(singleflight.claim(&request).is_err());
    assert!(singleflight.claim(&other).is_err());
    singleflight.release(&other);
    assert!(singleflight.active.is_some());
    singleflight.release(&request);
    assert!(singleflight.active.is_none());

    singleflight.claim(&request).expect("released flight accepts next scan");
    singleflight.release(&request);
}

#[test]
fn selected_discovery_ip_must_be_well_formed_and_assigned() {
    let interfaces = vec![NetworkInterfaceOption {
        name: "test0".to_string(),
        ip: "192.168.20.4".to_string(),
        label: "test0 (192.168.20.4)".to_string(),
    }];
    assert!(validate_discovery_selection(Some("not-an-ip".to_string()), &interfaces).is_err());
    assert!(validate_discovery_selection(Some("x".repeat(46)), &interfaces).is_err());
    assert!(selected_ip_is_assigned("192.168.20.4", &interfaces));
    assert!(!selected_ip_is_assigned("192.168.20.5", &interfaces));

    assert_eq!(
        validate_discovery_selection(Some(" 192.168.20.4 ".to_string()), &interfaces),
        Ok(Some("192.168.20.4".to_string()))
    );
    assert_eq!(validate_discovery_selection(Some(" ".to_string()), &interfaces), Ok(None));
    assert_eq!(validate_discovery_selection(None, &interfaces), Ok(None));
    assert!(validate_discovery_selection(Some("192.168.20.5".to_string()), &interfaces).is_err());
}

#[test]
fn changes_wait_for_active_transfers() {
    let previous = defaults();
    let mut update = update_of(&previous);
    update.max_item_bytes += 1;
    assert!(plan_update(&previous, update, true, true).is_err());

    let mut update = update_of(&previous);
    update.language = "en-US".to_string();
    let plan = plan_update(&previous, update, true, true).expect("interface only");
    assert!(plan.settings_changed && !plan.apply_runtime && !plan.discovery_changed);
    assert!(matches!(next_update_action(&plan, UpdateEvent::Planned), UpdateAction::Save));

    let plan = plan_change(&previous, previous.clone(), true, false).expect("nothing changed");
    assert!(!plan.settings_changed && !plan.apply_runtime);
}

#[test]
fn failed_changes_are_rolled_back() {
    let previous = defaults();
    let mut update = update_of(&previous);
    update.max_item_bytes += 1;
    let plan = plan_update(&previous, update, true, false).expect("plan");
    assert!(plan.apply_runtime);
    assert!(matches!(next_update_action(&plan, UpdateEvent::Planned), UpdateAction::ApplyRuntime));
    assert!(matches!(
        next_update_action(&plan, UpdateEvent::RuntimeApplied(Ok(()))),
        UpdateAction::Save
    ));
    assert!(matches!(
        next_update_action(&plan, UpdateEvent::RuntimeApplied(Err("port".to_string()))),
        UpdateAction::RollBack { stage: UpdateStage::ApplyRuntime, error } if error == "port"
    ));
    assert!(matches!(
        next_update_action(&plan, UpdateEvent::Saved(Err("disk".to_string()))),
        UpdateAction::RollBack { stage: UpdateStage::Persist, .. }
    ));
    assert!(matches!(
        next_update_action(&plan, UpdateEvent::Saved(Ok(()))),
        UpdateAction::Commit { publish: true, new_revision: false, cache: CacheAction::Restore }
    ));
    let event = UpdateEvent::RolledBack {
        stage: UpdateStage::Persist,
        error: "disk".to_string(),
        outcome: Ok(()),
    };
    let UpdateAction::Fail { message, .. } = next_update_action(&plan, event) else {
        panic!("expected a failure");
    };
    assert_eq!(message, transaction_error(UpdateStage::Persist, "disk", &Ok(())));
    assert!(message.contains("disk"));
    let worse = transaction_error(UpdateStage::Persist, "disk", &Err("again".to_string()));
    assert!(worse.contains("disk") && worse.contains("again"));
}

#[test]
fn presence_failures_do_not_stop_the_start() {
    assert_eq!(runtime_started(Ok(()), Ok(())), Ok(None));
    assert!(matches!(runtime_started(Err("mdns".to_string()), Ok(())), Ok(Some(_))));
    assert!(runtime_started(Ok(()), Err("tcp".to_string())).is_err());
}

#[test]
fn runtime_subdirectory_names_cannot_escape_the_cache_root() {
    assert!(secure_runtime_subdir("received").is_ok());
    assert!(secure_runtime_subdir("../outside").is_err());
    assert!(secure_runtime_subdir("a/b").is_err());
    assert!(secure_runtime_subdir("").is_err());
    assert!(secure_runtime_subdir(".").is_err());
}

#[test]
fn private_storage_holds_plain_files_and_directories() {
    assert!(reject_symlink_or_non_file(EntryKind::File).is_ok());
    assert!(reject_symlink_or_non_file(EntryKind::SymbolicLink).is_err());
    assert!(reject_symlink_or_non_file(EntryKind::Directory).is_err());
    assert!(check_private_directory(EntryKind::Directory).is_ok());
    assert!(check_private_directory(EntryKind::SymbolicLink).is_err());
    assert!(validate_open_runtime_file(true, false, Some(1)).is_ok());
    assert!(validate_open_runtime_file(true, false, Some(2)).is_err());
    assert!(validate_open_runtime_file(true, true, None).is_err());
    assert!(validate_open_runtime_file(false, false, Some(1)).is_err());
}

#[test]
fn a_draw_spells_its_key_unless_it_is_weak() {
    let spread: Vec<u8> = (0..26u32).map(|i| ((i * (i + 7) + i / 13) % 32) as u8).collect();
    let key = pairing_key_of(&spread).expect("strong draw");
    assert_eq!(key.len(), 26);
    assert!(is_valid_shared_code(&key) && is_strong_shared_code(&key));
    assert_eq!(key.chars().next(), Some('A'));
    assert_eq!(key.chars().nth(1), Some('J'));

    assert_eq!(pairing_key_of(&vec![0u8; 26]), None);
    let climbing: Vec<u8> = (0..26u8).collect();
    assert_eq!(pairing_key_of(&climbing), None);
}

#[test]
fn recovered_settings_are_defaults_with_a_new_identity() {
    let recovered =
        Settings::recover_invalid(StoredSettings::NotSettings).expect("recover settings");
    assert!(is_strong_shared_code(&recovered.sync.shared_code));
    assert!(Uuid::parse_str(&recovered.sync.device_id).is_ok());
    assert_eq!(recovered.sync.listen_port, 32910);
    assert_eq!(recovered.limits.max_item_bytes, 262_144);
    let other = Settings::recover_invalid(StoredSettings::Value(recovered.clone()))
        .expect("recover settings");
    assert_ne!(recovered.sync.device_id, other.sync.device_id);
    assert_eq!(Settings::load(StoredSettings::Value(recovered.clone())), Ok(recovered));
    assert_eq!(
        Settings::recover_invalid(StoredSettings::Missing),
        Err(SettingsError::NotFound)
    );
    assert_eq!(Settings::recover_invalid(StoredSettings::Unreadable), Err(SettingsError::Io));
}

#[test]
fn migration_of_settings_without_a_legacy_code_is_refused_without_a_draw() {
    let refused = Settings::migrate_legacy_shared_code(StoredSettings::Value(defaults()));
    assert_eq!(
        refused,
        Err(SettingsError::Validation(SettingsValidationError::InvalidSharedCode))
    );
    assert_eq!(
        Settings::migrate_legacy_shared_code(StoredSettings::Missing),
        Err(SettingsError::NotFound)
    );
    assert_eq!(
        Settings::migrate_legacy_shared_code(StoredSettings::NotSettings),
        Err(SettingsError::Corrupt)
    );
}
