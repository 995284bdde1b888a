use termpp::config::{Config, Platform, RawConfig, RawKeybindings};

fn raw(notification_timeout: Option<u64>, font_size: Option<u16>, theme: Option<&str>) -> RawConfig {
    RawConfig {
        notification_timeout,
        font_size,
        theme: theme.map(|t| t.to_string()),
        shell: None,
        font_name: None,
        keybindings: None,
        auto_close_on_exit: None,
    }
}

#[test]
fn loads_valid_config() {
    // notification_timeout = 3, font_size = 16, theme = "dark"
    let config = Config::load_or_default(Some(Ok(raw(Some(3), Some(16), Some("dark")))), None, Platform::Other).unwrap();
    assert_eq!(config.notification_timeout, 3);
    assert_eq!(config.font_size, 16);
}

#[test]
fn uses_defaults_when_fields_absent() {
    // an empty file
    let config = Config::load_or_default(Some(Ok(raw(None, None, None))), None, Platform::Other).unwrap();
    assert_eq!(config.notification_timeout, 2);
    assert_eq!(config.font_size, 14);
    assert_eq!(config.theme, "dark");
}

#[test]
fn no_file_gives_defaults_with_environment_shell() {
    let config = Config::load_or_default(None, Some("/bin/zsh".to_string()), Platform::Other).unwrap();
    assert_eq!(config.shell, "/bin/zsh");
    assert_eq!(config.font_name, "Cascadia Mono");
    assert!(!config.auto_close_on_exit);
    let config = Config::load_or_default(None, None, Platform::Other).unwrap();
    assert_eq!(config.shell, "/bin/sh");
}

#[test]
fn absent_keybindings_take_their_defaults() {
    let kb = RawKeybindings {
        split_horizontal: Some("alt+h".to_string()),
        split_vertical: None,
        pane_next: None,
        pane_prev: None,
        new_pane: None,
        close_pane: None,
        rename_pane: None,
        tab_next: None,
        tab_prev: None,
        tab_new: None,
        workspace_next: None,
        workspace_prev: None,
        workspace_new: None,
    };
    let mut r = raw(None, None, None);
    r.keybindings = Some(kb);
    r.shell = Some("fish".to_string());
    let config = Config::from_raw(r, Some("/bin/zsh".to_string()), Platform::Other);
    assert_eq!(config.keybindings.split_horizontal, "alt+h");
    assert_eq!(config.keybindings.split_vertical, "ctrl+shift+v");
    assert_eq!(config.keybindings.workspace_prev, "ctrl+shift+pageup");
    assert_eq!(config.shell, "fish");
}

#[test]
fn windows_default_shell_ignores_environment() {
    let config = Config::load_or_default(None, Some("/bin/zsh".to_string()), Platform::Windows).unwrap();
    assert_eq!(config.shell, "pwsh.exe");
    let config = Config::default_with_shell(None, Platform::Windows);
    assert_eq!(config.shell, "pwsh.exe");
    let mut r = raw(None, None, None);
    r.shell = Some("cmd.exe".to_string());
    let config = Config::from_raw(r, Some("/bin/zsh".to_string()), Platform::Windows);
    assert_eq!(config.shell, "cmd.exe");
}
