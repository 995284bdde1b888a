use vstd::prelude::*;
use vstd::string::*;

verus! {

broadcast use vstd::string::group_string_axioms;

/// The standard library's I/O error.
#[verifier::external_type_specification]
#[verifier::external_body]
pub struct ExIoError(std::io::Error);

/// The TOML parser's error.
#[verifier::external_type_specification]
#[verifier::external_body]
pub struct ExTomlError(toml::de::Error);

/// Default font family.
pub fn default_font_name() -> (s: String)
    ensures
        s@ == "Cascadia Mono"@,
{
    String::from_str("Cascadia Mono")
}

/// Default idle time, in seconds, before a pane notifies.
pub fn default_notification_timeout() -> (n: u64)
    ensures
        n == 2,
{
    2
}

/// Default font size.
pub fn default_font_size() -> (n: u16)
    ensures
        n == 14,
{
    14
}

/// Default theme name.
pub fn default_theme() -> (s: String)
    ensures
        s@ == "dark"@,
{
    String::from_str("dark")
}

/// The operating system the multiplexer runs on, as far as its defaults care.
#[derive(Debug, Clone, Copy, PartialEq, Eq, Structural)]
pub enum Platform {
    Windows,
    Other,
}

/// The default shell: `pwsh.exe` on Windows; elsewhere the `SHELL`
/// environment variable (`env_shell`) when it is set, else `/bin/sh`.
pub open spec fn platform_shell(platform: Platform, env_shell: Option<String>) -> Seq<char> {
    match platform {
        Platform::Windows => "pwsh.exe"@,
        Platform::Other => or_text(env_shell, "/bin/sh"@),
    }
}

/// The shell to run when the configuration names none: `pwsh.exe` on
/// Windows; elsewhere the `SHELL` environment variable when it is set, else `/bin/sh`.
pub fn default_shell(env_shell: Option<String>, platform: Platform) -> (s: String)
    ensures
        s@ == platform_shell(platform, env_shell),
{
    match platform {
        Platform::Windows => String::from_str("pwsh.exe"),
        Platform::Other => match env_shell {
            Some(e) => e,
            None => String::from_str("/bin/sh"),
        },
    }
}

/// Default binding: split the active pane side by side.
pub fn default_split_h() -> (s: String)
    ensures
        s@ == "ctrl+shift+h"@,
{
    String::from_str("ctrl+shift+h")
}

/// Default binding: split the active pane top / bottom.
pub fn default_split_v() -> (s: String)
    ensures
        s@ == "ctrl+shift+v"@,
{
    String::from_str("ctrl+shift+v")
}

/// Default binding: next pane.
pub fn default_pane_next() -> (s: String)
    ensures
        s@ == "ctrl+tab"@,
{
    String::from_str("ctrl+tab")
}

/// Default binding: previous pane.
pub fn default_pane_prev() -> (s: String)
    ensures
        s@ == "ctrl+shift+tab"@,
{
    String::from_str("ctrl+shift+tab")
}

/// Default binding: new pane.
pub fn default_new_pane() -> (s: String)
    ensures
        s@ == "ctrl+shift+n"@,
{
    String::from_str("ctrl+shift+n")
}

/// Default binding: close the active pane.
pub fn default_close_pane() -> (s: String)
    ensures
        s@ == "ctrl+shift+q"@,
{
    String::from_str("ctrl+shift+q")
}

/// Default binding: rename the active tab.
pub fn default_rename_pane() -> (s: String)
    ensures
        s@ == "ctrl+shift+r"@,
{
    String::from_str("ctrl+shift+r")
}

/// Default binding: next tab.
pub fn default_tab_next() -> (s: String)
    ensures
        s@ == "ctrl+pagedown"@,
{
    String::from_str("ctrl+pagedown")
}

/// Default binding: previous tab.
pub fn default_tab_prev() -> (s: String)
    ensures
        s@ == "ctrl+pageup"@,
{
    String::from_str("ctrl+pageup")
}

/// Default binding: new tab.
pub fn default_tab_new() -> (s: String)
    ensures
        s@ == "ctrl+shift+t"@,
{
    String::from_str("ctrl+shift+t")
}

/// Default binding: next workspace.
pub fn default_workspace_next() -> (s: String)
    ensures
        s@ == "ctrl+shift+pagedown"@,
{
    String::from_str("ctrl+shift+pagedown")
}

/// Default binding: previous workspace.
pub fn default_workspace_prev() -> (s: String)
    ensures
        s@ == "ctrl+shift+pageup"@,
{
    String::from_str("ctrl+shift+pageup")
}

/// Default binding: new workspace.
pub fn default_workspace_new() -> (s: String)
    ensures
        s@ == "ctrl+shift+w"@,
{
    String::from_str("ctrl+shift+w")
}

/// Key bindings, each written like `ctrl+shift+h`.
#[derive(Debug, Clone, Hash)]
pub struct Keybindings {
    pub split_horizontal: String,
    pub split_vertical: String,
    pub pane_next: String,
    pub pane_prev: String,
    pub new_pane: String,
    pub close_pane: String,
    pub rename_pane: String,
    pub tab_next: String,
    pub tab_prev: String,
    pub tab_new: String,
    pub workspace_next: String,
    pub workspace_prev: String,
    pub workspace_new: String,
}

/// Key bindings as read from a configuration file; absent ones are `None`.
#[derive(Debug, Clone)]
pub struct RawKeybindings {
    pub split_horizontal: Option<String>,
    pub split_vertical: Option<String>,
    pub pane_next: Option<String>,
    pub pane_prev: Option<String>,
    pub new_pane: Option<String>,
    pub close_pane: Option<String>,
    pub rename_pane: Option<String>,
    pub tab_next: Option<String>,
    pub tab_prev: Option<String>,
    pub tab_new: Option<String>,
    pub workspace_next: Option<String>,
    pub workspace_prev: Option<String>,
    pub workspace_new: Option<String>,
}

/// The text of `o`, or `d` when absent.
pub open spec fn or_text(o: Option<String>, d: Seq<char>) -> Seq<char> {
    match o {
        Some(s) => s@,
        None => d,
    }
}

impl Keybindings {
    /// The bindings hold the default keys.
    pub open spec fn is_default(&self) -> bool {
        &&& self.split_horizontal@ == "ctrl+shift+h"@
        &&& self.split_vertical@ == "ctrl+shift+v"@
        &&& self.pane_next@ == "ctrl+tab"@
        &&& self.pane_prev@ == "ctrl+shift+tab"@
        &&& self.new_pane@ == "ctrl+shift+n"@
        &&& self.close_pane@ == "ctrl+shift+q"@
        &&& self.rename_pane@ == "ctrl+shift+r"@
        &&& self.tab_next@ == "ctrl+pagedown"@
        &&& self.tab_prev@ == "ctrl+pageup"@
        &&& self.tab_new@ == "ctrl+shift+t"@
        &&& self.workspace_next@ == "ctrl+shift+pagedown"@
        &&& self.workspace_prev@ == "ctrl+shift+pageup"@
        &&& self.workspace_new@ == "ctrl+shift+w"@
    }

    /// The bindings read from a file, each absent one taking its default.
    pub open spec fn filled_from(&self, raw: RawKeybindings) -> bool {
        &&& self.split_horizontal@ == or_text(raw.split_horizontal, "ctrl+shift+h"@)
        &&& self.split_vertical@ == or_text(raw.split_vertical, "ctrl+shift+v"@)
        &&& self.pane_next@ == or_text(raw.pane_next, "ctrl+tab"@)
        &&& self.pane_prev@ == or_text(raw.pane_prev, "ctrl+shift+tab"@)
        &&& self.new_pane@ == or_text(raw.new_pane, "ctrl+shift+n"@)
        &&& self.close_pane@ == or_text(raw.close_pane, "ctrl+shift+q"@)
        &&& self.rename_pane@ == or_text(raw.rename_pane, "ctrl+shift+r"@)
        &&& self.tab_next@ == or_text(raw.tab_next, "ctrl+pagedown"@)
        &&& self.tab_prev@ == or_text(raw.tab_prev, "ctrl+pageup"@)
        &&& self.tab_new@ == or_text(raw.tab_new, "ctrl+shift+t"@)
        &&& self.workspace_next@ == or_text(raw.workspace_next, "ctrl+shift+pagedown"@)
        &&& self.workspace_prev@ == or_text(raw.workspace_prev, "ctrl+shift+pageup"@)
        &&& self.workspace_new@ == or_text(raw.workspace_new, "ctrl+shift+w"@)
    }

    /// The bindings from a configuration file, with defaults for the absent ones.
    pub fn from_raw(raw: RawKeybindings) -> (k: Self)
        ensures
            k.filled_from(raw),
    {
        Keybindings {
            split_horizontal: or_default(raw.split_horizontal, default_split_h()),
            split_vertical: or_default(raw.split_vertical, default_split_v()),
            pane_next: or_default(raw.pane_next, default_pane_next()),
            pane_prev: or_default(raw.pane_prev, default_pane_prev()),
            new_pane: or_default(raw.new_pane, default_new_pane()),
            close_pane: or_default(raw.close_pane, default_close_pane()),
            rename_pane: or_default(raw.rename_pane, default_rename_pane()),
            tab_next: or_default(raw.tab_next, default_tab_next()),
            tab_prev: or_default(raw.tab_prev, default_tab_prev()),
            tab_new: or_default(raw.tab_new, default_tab_new()),
            workspace_next: or_default(raw.workspace_next, default_workspace_next()),
            workspace_prev: or_default(raw.workspace_prev, default_workspace_prev()),
            workspace_new: or_default(raw.workspace_new, default_workspace_new()),
        }
    }
}

/// `o`, or `d` when absent.
fn or_default(o: Option<String>, d: String) -> (s: String)
    ensures
        s@ == or_text(o, d@),
{
    match o {
        Some(s) => s,
        None => d,
    }
}

impl Default for Keybindings {
    fn default() -> (k: Self)
        ensures
            k.is_default(),
    {
        Self {
            split_horizontal: default_split_h(),
            split_vertical: default_split_v(),
            pane_next: default_pane_next(),
            pane_prev: default_pane_prev(),
            new_pane: default_new_pane(),
            close_pane: default_close_pane(),
            rename_pane: default_rename_pane(),
            tab_next: default_tab_next(),
            tab_prev: default_tab_prev(),
            tab_new: default_tab_new(),
            workspace_next: default_workspace_next(),
            workspace_prev: default_workspace_prev(),
            workspace_new: default_workspace_new(),
        }
    }
}

/// Settings of the multiplexer.
#[derive(Debug)]
pub struct Config {
    pub notification_timeout: u64,
    pub font_size: u16,
    pub theme: String,
    pub shell: String,
    pub font_name: String,
    pub keybindings: Keybindings,
    pub auto_close_on_exit: bool,
}

/// Settings as read from a configuration file; absent ones are `None`.
#[derive(Debug)]
pub struct RawConfig {
    pub notification_timeout: Option<u64>,
    pub font_size: Option<u16>,
    pub theme: Option<String>,
    pub shell: Option<String>,
    pub font_name: Option<String>,
    pub keybindings: Option<RawKeybindings>,
    pub auto_close_on_exit: Option<bool>,
}

/// Why the configuration could not be loaded.
#[derive(Debug)]
pub enum ConfigError {
    Io(std::io::Error),
    Parse(toml::de::Error),
}

impl Config {
    /// The settings read from a file, each absent one taking its default
    /// (`env_shell` being the `SHELL` environment variable, `platform` the
    /// operating system).
    pub open spec fn filled_from(&self, raw: RawConfig, env_shell: Option<String>, platform: Platform) -> bool {
        &&& self.notification_timeout == match raw.notification_timeout {
            Some(n) => n,
            None => 2,
        }
        &&& self.font_size == match raw.font_size {
            Some(n) => n,
            None => 14,
        }
        &&& self.theme@ == or_text(raw.theme, "dark"@)
        &&& self.shell@ == or_text(raw.shell, platform_shell(platform, env_shell))
        &&& self.font_name@ == or_text(raw.font_name, "Cascadia Mono"@)
        &&& match raw.keybindings {
            Some(k) => self.keybindings.filled_from(k),
            None => self.keybindings.is_default(),
        }
        &&& self.auto_close_on_exit == match raw.auto_close_on_exit {
            Some(b) => b,
            None => false,
        }
    }

    /// The default settings (`env_shell` being the `SHELL` environment
    /// variable, `platform` the operating system).
    pub open spec fn is_default_for(&self, env_shell: Option<String>, platform: Platform) -> bool {
        &&& self.notification_timeout == 2
        &&& self.font_size == 14
        &&& self.theme@ == "dark"@
        &&& self.shell@ == platform_shell(platform, env_shell)
        &&& self.font_name@ == "Cascadia Mono"@
        &&& self.keybindings.is_default()
        &&& !self.auto_close_on_exit
    }

    /// The default settings, `env_shell` being the `SHELL` environment
    /// variable and `platform` the operating system.
    pub fn default_with_shell(env_shell: Option<String>, platform: Platform) -> (c: Self)
        ensures
            c.is_default_for(env_shell, platform),
    {
        Self {
            notification_timeout: default_notification_timeout(),
            font_size: default_font_size(),
            theme: default_theme(),
            shell: default_shell(env_shell, platform),
            font_name: default_font_name(),
            keybindings: Keybindings::default(),
            auto_close_on_exit: false,
        }
    }

    /// The settings from a configuration file, with defaults for the absent ones.
    pub fn from_raw(raw: RawConfig, env_shell: Option<String>, platform: Platform) -> (c: Self)
        ensures
            c.filled_from(raw, env_shell, platform),
    {
        let keybindings = match raw.keybindings {
            Some(k) => Keybindings::from_raw(k),
            None => Keybindings::default(),
        };
        let shell = match raw.shell {
            Some(s) => s,
            None => default_shell(env_shell, platform),
        };
        Self {
            notification_timeout: match raw.notification_timeout {
                Some(n) => n,
                None => default_notification_timeout(),
            },
            font_size: match raw.font_size {
                Some(n) => n,
                None => default_font_size(),
            },
            theme: or_default(raw.theme, default_theme()),
            shell,
            font_name: or_default(raw.font_name, default_font_name()),
            keybindings,
            auto_close_on_exit: match raw.auto_close_on_exit {
                Some(b) => b,
                None => false,
            },
        }
    }

    /// The configuration: the defaults when there is no file (`file` is
    /// `None`), the file's settings with defaults for the absent ones when it
    /// was read and parsed, its error otherwise.
    pub fn load_or_default(
        file: Option<Result<RawConfig, ConfigError>>,
        env_shell: Option<String>,
        platform: Platform,
    ) -> (r: Result<Self, ConfigError>)
        ensures
            match file {
                None => r matches Ok(c) && c.is_default_for(env_shell, platform),
                Some(Ok(raw)) => r matches Ok(c) && c.filled_from(raw, env_shell, platform),
                Some(Err(e)) => r == Err::<Self, ConfigError>(e),
            },
    {
        match file {
            None => Ok(Self::default_with_shell(env_shell, platform)),
            Some(Ok(raw)) => Ok(Self::from_raw(raw, env_shell, platform)),
            Some(Err(e)) => Err(e),
        }
    }
}

/// The defaults: a notification after 2 seconds without output, font size
/// 14, the dark theme, Cascadia Mono, panes not closed on exit, and the
/// bindings Ctrl+Shift+H / V split, Ctrl+Tab / Ctrl+Shift+Tab move between
/// panes, Ctrl+Shift+N new pane, Ctrl+Shift+Q close, Ctrl+Shift+R rename,
/// Ctrl+PageDown / PageUp move between tabs, Ctrl+Shift+T new tab,
/// Ctrl+Shift+PageDown / PageUp move between workspaces, Ctrl+Shift+W new
/// workspace.
pub proof fn law_defaults(c: Config, env_shell: Option<String>, platform: Platform)
    requires
        c.is_default_for(env_shell, platform),
    ensures
        c.notification_timeout == 2,
        c.font_size == 14,
        c.theme@ == "dark"@,
        c.font_name@ == "Cascadia Mono"@,
        !c.auto_close_on_exit,
        c.keybindings.split_horizontal@ == "ctrl+shift+h"@,
        c.keybindings.split_vertical@ == "ctrl+shift+v"@,
        c.keybindings.pane_next@ == "ctrl+tab"@,
        c.keybindings.pane_prev@ == "ctrl+shift+tab"@,
        c.keybindings.new_pane@ == "ctrl+shift+n"@,
        c.keybindings.close_pane@ == "ctrl+shift+q"@,
        c.keybindings.rename_pane@ == "ctrl+shift+r"@,
        c.keybindings.tab_next@ == "ctrl+pagedown"@,
        c.keybindings.tab_prev@ == "ctrl+pageup"@,
        c.keybindings.tab_new@ == "ctrl+shift+t"@,
        c.keybindings.workspace_next@ == "ctrl+shift+pagedown"@,
        c.keybindings.workspace_prev@ == "ctrl+shift+pageup"@,
        c.keybindings.workspace_new@ == "ctrl+shift+w"@,
        platform == Platform::Windows ==> c.shell@ == "pwsh.exe"@,
        platform == Platform::Other && env_shell is None ==> c.shell@ == "/bin/sh"@,
        platform == Platform::Other ==> (env_shell matches Some(e) ==> c.shell@ == e@),
{
}

} // verus!
