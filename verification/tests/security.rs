use sher_display::security::{Permission, PermissionManager, PermissionTier};

#[test]
fn ungranted_permission_is_denied() {
    let mgr = PermissionManager::new();
    assert!(!mgr.check("app.example", Permission::ScreenCapture, 1_000));
}

#[test]
fn granted_permission_allowed_until_expiry() {
    let mut mgr = PermissionManager::new();
    mgr.grant("app.example", Permission::ScreenCapture, PermissionTier::Critical, 1_000);

    assert!(mgr.check("app.example", Permission::ScreenCapture, 1_500));
    assert!(!mgr.check("app.example", Permission::ScreenCapture, 1_000 + PermissionTier::Critical.duration_secs()));
}

#[test]
fn revoke_removes_grant_immediately() {
    let mut mgr = PermissionManager::new();
    mgr.grant("app.example", Permission::ClipboardAccess, PermissionTier::High, 1_000);
    mgr.revoke("app.example", Permission::ClipboardAccess);
    assert!(!mgr.check("app.example", Permission::ClipboardAccess, 1_001));
}

#[test]
fn a_grant_for_one_app_does_not_leak_to_another() {
    let mut mgr = PermissionManager::new();
    mgr.grant("app.trusted", Permission::InputInjection, PermissionTier::Low, 1_000);
    assert!(!mgr.check("app.other", Permission::InputInjection, 1_001));
}

#[test]
fn tier_durations_are_exact() {
    assert_eq!(PermissionTier::Low.duration_secs(), 3_600);
    assert_eq!(PermissionTier::Medium.duration_secs(), 86_400);
    assert_eq!(PermissionTier::High.duration_secs(), 7_200);
    assert_eq!(PermissionTier::Critical.duration_secs(), 1_800);
}

#[test]
fn grant_then_check_allows_exactly_inside_the_window() {
    let mut mgr = PermissionManager::new();
    mgr.grant("app.a", Permission::ScreenCapture, PermissionTier::Critical, 100);
    assert!(mgr.check("app.a", Permission::ScreenCapture, 100));
    assert!(mgr.check("app.a", Permission::ScreenCapture, 1_899));
    assert!(!mgr.check("app.a", Permission::ScreenCapture, 1_900));
    assert!(!mgr.check("app.a", Permission::ClipboardAccess, 200));
}

#[test]
fn regranting_replaces_the_previous_grant() {
    let mut mgr = PermissionManager::new();
    mgr.grant("app.a", Permission::ScreenCapture, PermissionTier::Critical, 0);
    mgr.grant("app.a", Permission::ScreenCapture, PermissionTier::Critical, 1_000);
    assert_eq!(mgr.active_grants(0).len(), 1);
    assert!(mgr.check("app.a", Permission::ScreenCapture, 2_000));
}

#[test]
fn prune_expired_keeps_only_live_grants_and_answers() {
    let mut mgr = PermissionManager::new();
    mgr.grant("app.a", Permission::ScreenCapture, PermissionTier::Critical, 0);
    mgr.grant("app.b", Permission::ClipboardAccess, PermissionTier::Low, 0);
    assert_eq!(mgr.active_grants(2_000).len(), 1);
    mgr.prune_expired(2_000);
    assert_eq!(mgr.active_grants(0).len(), 1);
    assert!(!mgr.check("app.a", Permission::ScreenCapture, 10));
    assert!(mgr.check("app.b", Permission::ClipboardAccess, 2_000));
}

#[test]
fn active_grants_agree_with_check_and_pruning_twice_changes_nothing() {
    let mut mgr = PermissionManager::new();
    mgr.grant("app.a", Permission::ScreenCapture, PermissionTier::Critical, 0);
    mgr.grant("app.b", Permission::ClipboardAccess, PermissionTier::Low, 0);
    let active = mgr.active_grants(2_000);
    assert_eq!(active.len(), 1);
    assert!(mgr.check(&active[0].app_id, active[0].permission, 2_000));
    assert!(!mgr.check("app.a", Permission::ScreenCapture, 2_000));
    mgr.prune_expired(2_000);
    mgr.prune_expired(2_000);
    assert_eq!(mgr.active_grants(2_500).len(), 1);
    assert!(mgr.check("app.b", Permission::ClipboardAccess, 3_599));
}
