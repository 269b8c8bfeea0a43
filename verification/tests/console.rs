use mgmt::admin_profile::AdminProfileExt;
use mgmt::admin_rooms::RoomBus;

#[test]
fn initials_from_two_word_name() {
    let r = AdminProfileExt::compute_initials(Some("Kael Lim"), None);
    assert_eq!(r, "KL");
}

#[test]
fn initials_from_multi_word_uses_first_and_last() {
    let r = AdminProfileExt::compute_initials(Some("Mary Anne Smith"), None);
    assert_eq!(r, "MS");
}

#[test]
fn initials_from_one_word_takes_first_two() {
    let r = AdminProfileExt::compute_initials(Some("Kael"), None);
    assert_eq!(r, "KA");
}

#[test]
fn initials_from_single_char_name() {
    let r = AdminProfileExt::compute_initials(Some("X"), None);
    assert_eq!(r, "X");
}

#[test]
fn initials_fall_back_to_email_local_part() {
    let r = AdminProfileExt::compute_initials(None, Some("kael1996@tzuchi-org.tw"));
    assert_eq!(r, "KA");
}

#[test]
fn initials_empty_name_falls_through_to_email() {
    let r = AdminProfileExt::compute_initials(Some("   "), Some("alice@example.com"));
    assert_eq!(r, "AL");
}

#[test]
fn initials_both_none_returns_placeholder() {
    let r = AdminProfileExt::compute_initials(None, None);
    assert_eq!(r, "??");
}

#[test]
fn initials_email_with_single_char_local() {
    let r = AdminProfileExt::compute_initials(None, Some("z@example.com"));
    assert_eq!(r, "Z");
}

#[test]
fn initials_are_upper_case_in_any_script() {
    assert_eq!(AdminProfileExt::compute_initials(Some("élan öst"), None), "ÉÖ");
    assert_eq!(AdminProfileExt::compute_initials(Some("ßa"), None), "SSA");
    assert_eq!(AdminProfileExt::compute_initials(Some("王小明"), None), "王小");
    assert_eq!(AdminProfileExt::compute_initials(None, Some("@example.com")), "??");
}

#[test]
fn a_profile_always_has_initials() {
    let p = AdminProfileExt::placeholder();
    assert_eq!(p.initials, "??");
    let q = AdminProfileExt::of_row(Some("Ada Love".to_string()), None, None);
    assert_eq!(q.initials, "AL");
    assert_eq!(q.display_name.as_deref(), Some("Ada Love"));
}

#[test]
fn evict_tenant_count_snapshot_returns_real_count() {
    let mut bus = RoomBus::new();
    bus.subscribe("t-alpha", "chat");
    bus.subscribe("t-alpha", "presence");
    bus.subscribe("t-alpha", "metrics");
    bus.subscribe("t-beta", "chat");

    let rooms_evicted = bus.tenant_channel_count("t-alpha");
    bus.evict_tenant("t-alpha");

    assert_eq!(rooms_evicted, 3, "must report 3 rooms dropped");
    assert_eq!(bus.tenant_channel_count("t-alpha"), 0);
    assert_eq!(bus.tenant_channel_count("t-beta"), 1);
}
