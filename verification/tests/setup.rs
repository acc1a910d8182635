use sage::setup::{
    default_shell_index, model_for_choice, model_menu, model_menu_index, model_summary,
    ram_gb_from_sysctl, recommended_model, shell_from_env, shell_menu, CUSTOM_SHELL_CHOICE,
};

#[test]
fn recommends_by_memory() {
    assert_eq!(recommended_model(8), "E2B");
    assert_eq!(recommended_model(15), "E2B");
    assert_eq!(recommended_model(16), "E4B");
    assert_eq!(recommended_model(64), "E4B");
    assert_eq!(model_summary("E4B"), "more capable, higher memory");
    assert_eq!(model_summary("E2B"), "faster, lower memory");
}

#[test]
fn model_menu_opens_on_the_recommendation() {
    let menu = model_menu();
    assert_eq!(menu.len(), 2);
    assert!(menu[0].starts_with("E2B"));
    assert!(menu[1].starts_with("E4B"));
    for ram in [4u64, 16, 32] {
        let rec = recommended_model(ram);
        assert_eq!(model_for_choice(model_menu_index(rec)), rec);
    }
    assert_eq!(model_for_choice(0), "E2B");
    assert_eq!(model_for_choice(1), "E4B");
}

#[test]
fn shell_menu_default_entry() {
    let menu = shell_menu();
    assert_eq!(menu.len(), 8);
    assert_eq!(default_shell_index("/bin/zsh"), 0);
    assert_eq!(default_shell_index("/bin/bash"), 1);
    assert_eq!(default_shell_index("/usr/local/bin/fish"), 6);
    assert_eq!(default_shell_index("/usr/bin/nu"), CUSTOM_SHELL_CHOICE);
    assert_eq!(menu[CUSTOM_SHELL_CHOICE], "Other (enter a custom shell path)");
}

#[test]
fn shell_from_environment() {
    assert_eq!(shell_from_env(Some("  /bin/bash\n")), "/bin/bash");
    assert_eq!(shell_from_env(None), "/bin/zsh");
    assert!(shell_from_env(None).starts_with('/'));
    assert_eq!(shell_from_env(Some("")), "");
}

#[test]
fn memory_from_sysctl_output() {
    assert_eq!(ram_gb_from_sysctl(Some("17179869184\n")), 16);
    assert_eq!(ram_gb_from_sysctl(Some("  +1073741824 ")), 1);
    assert_eq!(ram_gb_from_sysctl(Some("18446744073709551615")), 17179869183);
    assert_eq!(ram_gb_from_sysctl(Some("536870912")), 0);
}

#[test]
fn memory_falls_back_to_eight() {
    assert_eq!(ram_gb_from_sysctl(None), 8);
    assert_eq!(ram_gb_from_sysctl(Some("")), 8);
    assert_eq!(ram_gb_from_sysctl(Some("abc")), 8);
    assert_eq!(ram_gb_from_sysctl(Some("-5")), 8);
    assert_eq!(ram_gb_from_sysctl(Some("+")), 8);
    assert_eq!(ram_gb_from_sysctl(Some("12 34")), 8);
    assert_eq!(ram_gb_from_sysctl(Some("18446744073709551616")), 8);
    assert!(ram_gb_from_sysctl(None) > 0);
}
