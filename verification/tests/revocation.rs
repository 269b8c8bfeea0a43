use mgmt::admin_pat::{cli_token_logout, cli_token_revoke, exchange_aftermath, reroll, CliCaller};
use mgmt::admin_team::{removal_aftermath, role_change_aftermath, Caller};
use mgmt::pat_evict::{
    owned_tenants, patch_tenant_owner, read_pat_reach, revocation_steps, PatReach, RevokeStep, TenantRow,
};

fn is_clear(s: &RevokeStep) -> bool {
    matches!(s, RevokeStep::ClearPatCache(_))
}

/// What each place that revokes tokens does, by its name.
fn sites() -> Vec<(&'static str, Vec<RevokeStep>)> {
    let caller = CliCaller { token_id: 1, admin_id: 2, email: None, label: Some("cli".to_string()) };
    let boss = Caller { id: 9, email: None };
    let reach = || PatReach::Owned(vec!["t1".to_string(), "t2".to_string()]);
    vec![
        ("reroll", exchange_aftermath(2, &reach()).steps),
        ("cli_token_refresh", exchange_aftermath(2, &PatReach::HostWide).steps),
        ("cli_token_logout", cli_token_logout(&caller, 1, &reach()).steps),
        ("cli_token_revoke", cli_token_revoke(2, 1, &reach(), "").unwrap().steps),
        ("change_role", role_change_aftermath(&boss, 2, "owner", "member").steps),
        ("remove_admin", removal_aftermath(&boss, 2, "member", &None, &reach()).steps),
        ("patch_tenant_owner", patch_tenant_owner(Some(1), Some(2), "t1")),
    ]
}

#[test]
fn every_revocation_site_clears_the_pat_cache_before_evicting_rooms_sockets() {
    for (name, steps) in sites() {
        let clear = steps.iter().rposition(is_clear).unwrap_or_else(|| panic!("{name}: no clear"));
        let evict = steps.iter().position(|s| !is_clear(s)).unwrap_or_else(|| panic!("{name}: no evict"));
        assert!(clear < evict, "{name}: the cache must be cleared first");
    }
}

#[test]
fn the_pinned_site_list_is_the_whole_site_list() {
    // Every step of every site is one of the two, so that none escapes the order.
    let all = sites();
    assert_eq!(all.len(), 7);
    for (name, steps) in all {
        let clears = steps.iter().filter(|s| is_clear(s)).count();
        let evicts = steps
            .iter()
            .filter(|s| matches!(s, RevokeStep::EvictAllTenants | RevokeStep::EvictTenant(_)))
            .count();
        assert_eq!(clears + evicts, steps.len(), "{name}");
    }
}

fn owned(role: Option<&str>, ids: &Vec<String>) -> Vec<String> {
    match read_pat_reach(role, Some(ids)) {
        PatReach::Owned(mut ids) => {
            ids.sort();
            ids
        }
        PatReach::HostWide => panic!("expected a narrowed reach"),
    }
}

/// The tenants that an administrator owns and that are not deleted.
fn meta(admin_id: i64) -> Vec<String> {
    owned_tenants(&tenants(), admin_id)
}

fn tenants() -> Vec<TenantRow> {
    let row = |id: &str, owner: Option<i64>, deleted: bool| TenantRow {
        id: id.to_string(),
        owner,
        deleted,
    };
    vec![
        row("t-owned", Some(3), false),
        row("t-owned-2", Some(3), false),
        row("t-foreign", Some(1), false),
        row("t-gone", Some(3), true),
        row("t-orphan", None, false),
    ]
}

#[test]
fn what_is_owned_and_not_deleted_is_picked() {
    assert_eq!(owned_tenants(&tenants(), 3), vec!["t-owned", "t-owned-2"]);
    assert_eq!(owned_tenants(&tenants(), 1), vec!["t-foreign"]);
    assert_eq!(owned_tenants(&tenants(), 4), Vec::<String>::new());
    assert_eq!(owned_tenants(&Vec::new(), 3), Vec::<String>::new());
}

#[test]
fn sees_all_roles_reach_the_whole_host() {
    assert!(matches!(read_pat_reach(Some("owner"), Some(&meta(1))), PatReach::HostWide));
    assert!(matches!(read_pat_reach(Some("admin"), Some(&meta(2))), PatReach::HostWide));
}

#[test]
fn a_member_reaches_only_the_tenants_they_own() {
    assert_eq!(owned(Some("member"), &meta(3)), vec!["t-owned", "t-owned-2"]);
}

#[test]
fn an_unknown_role_narrows_like_a_member() {
    assert_eq!(owned(Some("future-role"), &meta(4)), Vec::<String>::new());
}

#[test]
fn a_soft_deleted_tenant_is_not_in_the_eviction_set() {
    assert!(!owned(Some("member"), &meta(3)).contains(&"t-gone".to_string()));
}

#[test]
fn an_unknown_admin_falls_back_to_host_wide() {
    assert!(matches!(read_pat_reach(None, Some(&meta(999))), PatReach::HostWide));
}

#[test]
fn an_unreadable_tenants_table_falls_back_to_host_wide() {
    assert!(matches!(read_pat_reach(Some("member"), None), PatReach::HostWide));
}

#[test]
fn a_revocation_reaches_where_the_token_did() {
    let steps = revocation_steps(5, &PatReach::Owned(vec!["a".to_string()]));
    assert_eq!(steps.len(), 2);
    assert!(matches!(steps[0], RevokeStep::ClearPatCache(5)));
    assert!(matches!(&steps[1], RevokeStep::EvictTenant(t) if t == "a"));
    let all = revocation_steps(5, &PatReach::HostWide);
    assert!(matches!(all[1], RevokeStep::EvictAllTenants));
    // Nothing to close, but the cache is cleared.
    assert_eq!(revocation_steps(5, &PatReach::Owned(vec![])).len(), 1);
}

#[test]
fn a_promotion_closes_nothing() {
    let boss = Caller { id: 9, email: None };
    let up = role_change_aftermath(&boss, 2, "member", "owner").steps;
    assert!(up.iter().all(is_clear));
    let same = patch_tenant_owner(Some(1), Some(1), "t");
    assert!(same.iter().all(is_clear));
    assert_eq!(reroll(2, "p").len(), 2);
}
