use white_space::licensing::{
    check_license_request, create_license_storage, ActivateResp, DeactivateResp, LicenseManager,
    LicenseStorage, ValidateResp,
};

#[test]
fn test_license_manager_new() {
    let manager = LicenseManager::new();
    assert_eq!(manager.api_base_url, "https://api.whitespace.app/v1");
    assert_eq!(manager.endpoint_url("activate"), "https://api.whitespace.app/v1/activate");
}

#[test]
fn test_license_storage_new() {
    let storage = LicenseStorage::new();
    assert!(storage.cache.license_key.is_none());
    assert_eq!(storage.get_last_validated(), None);
}

#[test]
fn test_license_storage_store_and_get() {
    let mut storage = LicenseStorage::new();
    storage.store_license_data("test-key", "test-instance", "Test Device", 1000);
    let (license_key, instance_id, instance_name) = storage.get_license_data();
    assert_eq!(license_key, Some("test-key".to_string()));
    assert_eq!(instance_id, Some("test-instance".to_string()));
    assert_eq!(instance_name, Some("Test Device".to_string()));
    assert_eq!(storage.get_last_validated(), Some(1000));
    assert_eq!(storage.cache.status, Some("valid".to_string()));
}

#[test]
fn test_license_storage_clear() {
    let mut storage = LicenseStorage::new();
    storage.store_license_data("test-key", "test-instance", "Test Device", 1000);
    storage.clear_license_data();
    let (license_key, instance_id, instance_name) = storage.get_license_data();
    assert_eq!(license_key, None);
    assert_eq!(instance_id, None);
    assert_eq!(instance_name, None);
}

#[test]
fn test_create_license_storage() {
    let storage = create_license_storage();
    let (license_key, instance_id, instance_name) = storage.get_license_data();
    assert!(license_key.is_none());
    assert!(instance_id.is_none());
    assert!(instance_name.is_none());
}

#[test]
fn test_license_status_unlicensed() {
    let storage = LicenseStorage::new();
    let status = storage.ls_get_status();
    assert!(!status.is_licensed);
    assert!(status.license_key.is_none());
    assert_eq!(status.status_message, "No license");
}

#[test]
fn test_license_status_licensed() {
    let mut storage = LicenseStorage::new();
    storage.store_license_data("test-key", "test-instance", "Test Device", 1_700_000_000);
    let status = storage.ls_get_status();
    assert!(status.is_licensed);
    assert_eq!(status.license_key, Some("test-key".to_string()));
    assert_eq!(status.instance_id, Some("test-instance".to_string()));
    assert_eq!(status.instance_name, Some("Test Device".to_string()));
    assert_eq!(status.last_validated, Some(1_700_000_000_000));
    assert!(!status.is_offline_grace);
    assert_eq!(status.status_message, "valid");
}

#[test]
fn test_needs_validation_never_validated() {
    let storage = LicenseStorage::new();
    assert!(storage.ls_check_validation_needed(1_700_000_000));
}

#[test]
fn test_needs_validation_recent() {
    let mut storage = LicenseStorage::new();
    let now = 1_700_000_000;
    storage.store_license_data("k", "i", "n", now - 86_400);
    assert!(!storage.ls_check_validation_needed(now));
    assert!(!storage.ls_check_validation_needed(now + 6 * 86_400 - 1));
}

#[test]
fn test_needs_validation_old() {
    let mut storage = LicenseStorage::new();
    let now = 1_700_000_000;
    storage.store_license_data("k", "i", "n", now - 8 * 86_400);
    assert!(storage.ls_check_validation_needed(now));
    storage.update_status("valid", now - 7 * 86_400);
    assert!(storage.ls_check_validation_needed(now));
    storage.update_status("valid", now - 7 * 86_400 + 1);
    assert!(!storage.ls_check_validation_needed(now));
}

#[test]
fn license_answers_are_recorded() {
    let mut storage = LicenseStorage::new();
    let mut activation = ActivateResp {
        success: false,
        instance_id: Some("inst".to_string()),
        message: String::new(),
        expires_at: None,
        max_seats: None,
        used_seats: None,
    };
    storage.record_activation("key", "Device", &activation, 5);
    assert!(storage.cache.license_key.is_none());
    activation.success = true;
    storage.record_activation("key", "Device", &activation, 5);
    assert_eq!(storage.cache.instance_id, Some("inst".to_string()));
    let validation = ValidateResp {
        success: true,
        valid: true,
        message: String::new(),
        expires_at: None,
        max_seats: None,
        used_seats: None,
        instance_name: None,
    };
    storage.update_status("grace", 6);
    storage.record_validation(&validation, 9);
    assert_eq!(storage.cache.status, Some("valid".to_string()));
    assert_eq!(storage.get_last_validated(), Some(9));
    storage.record_deactivation(&DeactivateResp { success: false, message: String::new() });
    assert!(storage.cache.license_key.is_some());
    storage.record_deactivation(&DeactivateResp { success: true, message: String::new() });
    assert!(storage.cache.license_key.is_none());
}

#[test]
fn license_requests_must_not_be_blank() {
    assert_eq!(
        check_license_request("  ", "x", "Instance name"),
        Err("License key cannot be empty".to_string())
    );
    assert_eq!(
        check_license_request("k", " \t", "Instance ID"),
        Err("Instance ID cannot be empty".to_string())
    );
    assert_eq!(
        check_license_request(" k ", " name\n", "Instance name"),
        Ok(("k".to_string(), "name".to_string()))
    );
}
