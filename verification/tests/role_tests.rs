use moete::role::{
    cleanup_due, cleanup_roles, clear_message, color_example, color_info, color_progress,
    color_role_name, color_role_source, color_to_hex, count_color_roles, created_roles_info,
    find_anchor, find_role_named, is_color_role, plan_clear, plan_color, CleanupSchedule,
    ColorRoleSource, RoleInfo, CLEANUP_COOLDOWN_MS, server_only_message,
};

fn role(id: u64, name: &str, managed: bool) -> RoleInfo {
    RoleInfo { id, name: name.to_string(), managed, position: 0 }
}

fn placed(id: u64, name: &str, position: u16) -> RoleInfo {
    RoleInfo { id, name: name.to_string(), managed: false, position }
}

#[test]
fn colors_render_as_padded_upper_hex() {
    assert_eq!(color_to_hex(0xADD8E6), "#ADD8E6");
    assert_eq!(color_to_hex(0xFF), "#0000FF");
    assert_eq!(color_to_hex(0), "#000000");
    assert_eq!(color_role_name(0x00FF00), "M#00FF00");
    assert_eq!(color_info(0x123), "Hex: #000123");
}

#[test]
fn color_role_names_are_recognised() {
    assert!(is_color_role("M#ABCDEF"));
    assert!(is_color_role(&color_role_name(0xABCDEF)));
    assert!(!is_color_role("m#ABCDEF"));
    assert!(!is_color_role("Member"));
}

#[test]
fn anchor_found_in_any_case() {
    let roles = vec![role(1, "everyone", false), role(2, "=== MOETE: COLORS ===", false)];
    assert_eq!(find_anchor(&roles), Some(1));
    assert_eq!(find_anchor(&vec![role(1, "x", false)]), None);
}

#[test]
fn role_found_by_exact_name() {
    let roles = vec![role(1, "M#000001", false), role(2, "M#000002", false)];
    assert_eq!(find_role_named(&roles, "M#000002"), Some(1));
    assert_eq!(find_role_named(&roles, "m#000002"), None);
}

#[test]
fn applying_a_color_takes_other_color_roles() {
    let member = vec![role(10, "M#111111", false), role(11, "Member", false), role(12, "M#222222", false)];
    let plan = plan_color(&member, 99);
    assert_eq!(plan.remove, vec![10, 12]);
    assert!(!plan.already_applied);
}

#[test]
fn applying_a_held_color_stops_at_it() {
    let member = vec![role(10, "M#111111", false), role(12, "M#222222", false), role(13, "M#333333", false)];
    let plan = plan_color(&member, 12);
    assert_eq!(plan.remove, vec![10]);
    assert!(plan.already_applied);
}

#[test]
fn clearing_takes_every_color_role() {
    let member = vec![role(10, "M#111111", false), role(11, "Member", false), role(12, "M#222222", true)];
    assert_eq!(plan_clear(&member), vec![10, 12]);
    assert_eq!(count_color_roles(&member), 2);
}

#[test]
fn cleanup_deletes_unused_unmanaged_color_roles() {
    let roles = vec![
        role(1, "=== Moete: Colors ===", false),
        role(2, "M#000001", false),
        role(3, "M#000002", false),
        role(4, "M#000003", true),
        role(5, "Member", false),
    ];
    let members = vec![vec![5, 3], vec![1]];
    assert_eq!(cleanup_roles(&roles, &members), vec![2]);
}

#[test]
fn cleanup_needs_the_anchor() {
    let roles = vec![role(2, "M#000001", false)];
    assert!(cleanup_roles(&roles, &Vec::new()).is_empty());
}

#[test]
fn cleanup_runs_after_cooldown() {
    assert!(cleanup_due(None));
    assert!(!cleanup_due(Some(CLEANUP_COOLDOWN_MS - 1)));
    assert!(cleanup_due(Some(CLEANUP_COOLDOWN_MS)));
    assert_eq!(CLEANUP_COOLDOWN_MS, 30 * 60 * 1000);
}

#[test]
fn color_help_texts() {
    assert_eq!(created_roles_info(7), "Created Roles: `7`");
    assert_eq!(
        color_example(";"),
        "**With Hex Value**:```;color #ADD8E6```\nRefer to the picture below for tutorial.\n"
    );
}

#[test]
fn color_role_source_needs_the_anchor() {
    let roles = vec![placed(1, "everyone", 0), placed(2, "M#ADD8E6", 3)];
    assert_eq!(color_role_source(&roles, 0xADD8E6), ColorRoleSource::Unsupported);
}

#[test]
fn color_role_source_reuses_existing_role() {
    let roles = vec![placed(1, "=== Moete: Colors ===", 5), placed(2, "M#ADD8E6", 3), placed(3, "M#ADD8E6", 2)];
    assert_eq!(color_role_source(&roles, 0xADD8E6), ColorRoleSource::Existing(2));
}

#[test]
fn color_role_source_creates_at_anchor_position() {
    let roles = vec![placed(1, "member", 1), placed(7, "=== moete: colors ===", 5), placed(2, "M#000000", 3)];
    assert_eq!(
        color_role_source(&roles, 0x00FF00),
        ColorRoleSource::Create { name: "M#00FF00".to_string(), position: 5 }
    );
}

#[test]
fn clearing_answers() {
    assert_eq!(clear_message(false, true), "Moete's custom color roles are not supported on this server.");
    assert_eq!(clear_message(true, true), "Your custom color roles have been removed.");
    assert_eq!(clear_message(true, false), "You have no custom color roles to remove.");
    assert_eq!(color_progress(true), "```Already applied```");
    assert_eq!(color_progress(false), "```Added!```");
}

#[test]
fn cleanup_schedule_runs_once_per_cooldown() {
    let mut s = CleanupSchedule::new();
    assert!(s.try_start(1, 1000));
    assert!(!s.try_start(1, 1000 + CLEANUP_COOLDOWN_MS - 1));
    assert!(s.try_start(2, 1001));
    assert!(s.try_start(1, 1000 + CLEANUP_COOLDOWN_MS));
    assert!(!s.try_start(1, 1000 + CLEANUP_COOLDOWN_MS + 5));
    // a clock that went backwards counts as no time passed
    assert!(!s.try_start(2, 0));
}

#[test]
fn a_colour_makes_its_role_once() {
    let mut roles = vec![placed(1, "=== Moete: Colors ===", 4)];
    let first = color_role_source(&roles, 0x123456);
    assert_eq!(first, ColorRoleSource::Create { name: "M#123456".to_string(), position: 4 });
    roles.push(placed(99, "M#123456", 4));
    assert_eq!(color_role_source(&roles, 0x123456), ColorRoleSource::Existing(99));
    roles.push(placed(100, "M#123456", 2));
    assert_eq!(color_role_source(&roles, 0x123456), ColorRoleSource::Existing(99));
    assert_eq!(server_only_message(), "This command can only be used in a server");
}
