use oxide::keymap::actions::Action;
use oxide::keymap::registry::all;
use oxide::menus::{menus, MenuItem};

/// Every menu entry must resolve to a registry row: the Linux ☰ menu
/// looks bindings up that way, and the palette lists the same actions.
#[test]
fn menu_actions_have_registry_rows() {
    for macos in [true, false] {
        for menu in menus(macos) {
            for item in &menu.items {
                if let MenuItem::Action { title, action } = item {
                    assert!(
                        all().iter().any(|m| m.action == *action),
                        "{title} in the {} menu has no registry row",
                        menu.name
                    );
                }
            }
        }
    }
}

/// The ☰ popover can't show OS-managed submenus or hide the app, so
/// those entries are macOS-only.
#[test]
fn linux_menus_skip_appkit_only_entries() {
    for macos in [true, false] {
        let appkit_only = menus(macos).into_iter().flat_map(|m| m.items).any(|item| match item {
            MenuItem::SystemMenu { .. } => true,
            MenuItem::Action { action, .. } => action == Action::Hide || action == Action::HideOthers,
            _ => false,
        });
        assert_eq!(appkit_only, macos);
    }
}
