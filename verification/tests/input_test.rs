use termpp::config::Keybindings;
use termpp::input::{dispatch_key, key_to_bytes, matches_binding, Command, Key, KeyContext, Modifiers, NamedKey};
use termpp::multiplexer::layout::SplitDirection;

fn ctrl() -> Modifiers {
    Modifiers::ctrl()
}

fn ctrl_shift() -> Modifiers {
    Modifiers::ctrl_shift()
}

fn idle_context() -> KeyContext {
    KeyContext {
        renaming_tab: false,
        renaming_workspace: false,
        show_help: false,
        active_tab_id: 4,
        active_workspace_id: 2,
    }
}

#[test]
fn matches_ctrl_tab_for_pane_next() {
    assert!(matches_binding(&Key::Named(NamedKey::Tab), ctrl(), "ctrl+tab"));
}

#[test]
fn matches_ctrl_shift_tab_for_pane_prev() {
    assert!(matches_binding(&Key::Named(NamedKey::Tab), ctrl_shift(), "ctrl+shift+tab"));
}

#[test]
fn ctrl_tab_does_not_match_ctrl_shift_n() {
    // Regression: old pane_next default "ctrl+shift+n" must NOT match Ctrl+Tab
    assert!(!matches_binding(&Key::Named(NamedKey::Tab), ctrl(), "ctrl+shift+n"));
}

#[test]
fn matches_ctrl_pagedown_for_tab_next() {
    assert!(matches_binding(&Key::Named(NamedKey::PageDown), ctrl(), "ctrl+pagedown"));
}

#[test]
fn matches_ctrl_shift_w_for_workspace_new() {
    assert!(matches_binding(&Key::Character("w".into()), ctrl_shift(), "ctrl+shift+w"));
}

#[test]
fn matches_ctrl_shift_t_for_tab_new() {
    assert!(matches_binding(&Key::Character("t".into()), ctrl_shift(), "ctrl+shift+t"));
}

#[test]
fn binding_is_case_insensitive_and_needs_a_key() {
    assert!(matches_binding(&Key::Character("W".into()), ctrl_shift(), "Ctrl+Shift+w"));
    assert!(!matches_binding(&Key::Character("w".into()), ctrl_shift(), "ctrl+shift"));
    assert!(!matches_binding(&Key::Character("w".into()), ctrl(), "ctrl+shift+w"));
    assert!(matches_binding(&Key::Named(NamedKey::Tab), ctrl(), "control+tab"));
}

#[test]
fn ctrl_letter_gives_control_byte() {
    assert_eq!(key_to_bytes(&Key::Character("c".into()), ctrl(), Some("c")), vec![3u8]);
    assert_eq!(key_to_bytes(&Key::Character("A".into()), ctrl(), None), vec![1u8]);
}

#[test]
fn printable_text_is_sent_as_is() {
    assert_eq!(key_to_bytes(&Key::Character("é".into()), Modifiers::none(), Some("é")), "é".as_bytes().to_vec());
}

#[test]
fn special_keys_give_escape_sequences() {
    assert_eq!(key_to_bytes(&Key::Named(NamedKey::Enter), Modifiers::none(), None), b"\r".to_vec());
    assert_eq!(key_to_bytes(&Key::Named(NamedKey::ArrowUp), Modifiers::none(), None), b"\x1b[A".to_vec());
    assert_eq!(key_to_bytes(&Key::Named(NamedKey::Tab), Modifiers { control: false, shift: true, alt: false }, None), b"\x1b[Z".to_vec());
    assert_eq!(key_to_bytes(&Key::Named(NamedKey::F5), Modifiers::none(), None), b"\x1b[15~".to_vec());
    assert_eq!(key_to_bytes(&Key::Unidentified, Modifiers::none(), None), Vec::<u8>::new());
}

#[test]
fn control_text_goes_through_named_mapping() {
    assert_eq!(key_to_bytes(&Key::Named(NamedKey::Backspace), Modifiers::none(), Some("\u{8}")), b"\x7f".to_vec());
}

#[test]
fn f1_always_toggles_help() {
    let kb = Keybindings::default();
    let mut ctx = idle_context();
    ctx.renaming_tab = true;
    assert!(matches!(dispatch_key(&Key::Named(NamedKey::F1), Modifiers::none(), None, &kb, ctx), Some(Command::ToggleHelp)));
}

#[test]
fn escape_cancels_rename() {
    let kb = Keybindings::default();
    let mut ctx = idle_context();
    ctx.renaming_workspace = true;
    assert!(matches!(dispatch_key(&Key::Named(NamedKey::Escape), Modifiers::none(), None, &kb, ctx), Some(Command::CancelRenameWorkspace)));
    let mut ctx = idle_context();
    ctx.renaming_tab = true;
    assert!(matches!(dispatch_key(&Key::Named(NamedKey::Escape), Modifiers::none(), None, &kb, ctx), Some(Command::CancelRename)));
    assert!(dispatch_key(&Key::Character("a".into()), Modifiers::none(), Some("a"), &kb, ctx).is_none());
}

#[test]
fn help_swallows_keys_but_escape() {
    let kb = Keybindings::default();
    let mut ctx = idle_context();
    ctx.show_help = true;
    assert!(dispatch_key(&Key::Character("a".into()), Modifiers::none(), Some("a"), &kb, ctx).is_none());
    assert!(matches!(dispatch_key(&Key::Named(NamedKey::Escape), Modifiers::none(), None, &kb, ctx), Some(Command::ToggleHelp)));
}

#[test]
fn bindings_dispatch_to_commands() {
    let kb = Keybindings::default();
    let ctx = idle_context();
    assert!(matches!(
        dispatch_key(&Key::Character("h".into()), ctrl_shift(), None, &kb, ctx),
        Some(Command::SplitPane(SplitDirection::Vertical))
    ));
    assert!(matches!(
        dispatch_key(&Key::Character("v".into()), ctrl_shift(), None, &kb, ctx),
        Some(Command::SplitPane(SplitDirection::Horizontal))
    ));
    assert!(matches!(dispatch_key(&Key::Named(NamedKey::Tab), ctrl(), None, &kb, ctx), Some(Command::FocusNext)));
    assert!(matches!(dispatch_key(&Key::Character("r".into()), ctrl_shift(), None, &kb, ctx), Some(Command::StartRenameTab(4))));
    assert!(matches!(dispatch_key(&Key::Character("t".into()), ctrl_shift(), None, &kb, ctx), Some(Command::NewTabIn(2))));
    assert!(matches!(dispatch_key(&Key::Character("w".into()), ctrl_shift(), None, &kb, ctx), Some(Command::NewWorkspace)));
    assert!(matches!(dispatch_key(&Key::Character("q".into()), ctrl_shift(), None, &kb, ctx), Some(Command::ClosePane)));
}

#[test]
fn unbound_key_is_typed() {
    let kb = Keybindings::default();
    let ctx = idle_context();
    match dispatch_key(&Key::Character("x".into()), Modifiers::none(), Some("x"), &kb, ctx) {
        Some(Command::KeyInput(b)) => assert_eq!(b, b"x".to_vec()),
        _ => panic!("expected key input"),
    }
    assert!(dispatch_key(&Key::Unidentified, Modifiers::none(), None, &kb, ctx).is_none());
}

#[test]
fn help_escape_comes_before_rename_cancel() {
    let kb = Keybindings::default();
    let mut ctx = idle_context();
    ctx.show_help = true;
    ctx.renaming_tab = true;
    assert!(matches!(dispatch_key(&Key::Named(NamedKey::Escape), Modifiers::none(), None, &kb, ctx), Some(Command::ToggleHelp)));
    ctx.renaming_tab = false;
    ctx.renaming_workspace = true;
    assert!(matches!(dispatch_key(&Key::Named(NamedKey::Escape), Modifiers::none(), None, &kb, ctx), Some(Command::ToggleHelp)));
}

#[test]
fn binding_parts_may_be_spaced() {
    assert!(matches_binding(&Key::Character("h".into()), ctrl_shift(), "Ctrl + Shift + H"));
    assert!(matches_binding(&Key::Named(NamedKey::Tab), ctrl(), " ctrl +tab "));
    assert!(!matches_binding(&Key::Character("h".into()), ctrl(), "Ctrl + Shift + H"));
}
