//! App discovery and the launching of client programs (terminal, browser) into
//! the compositor's Wayland socket. The outcome here is what to run: which
//! program, with which arguments, in which environment.

use vstd::prelude::*;

use crate::model::is_blank;
use crate::scan;
use crate::task;
use crate::text;

verus! {

/// Connection info for spawned clients: which Wayland socket to use and where it
/// lives.
#[derive(Debug, PartialEq, Eq)]
pub struct SpawnEnv {
    pub wayland_display: String,
    pub runtime_dir: String,
    /// X11 display number from XWayland (e.g. `:1`), once it is ready.
    pub x_display: Option<u32>,
}

impl Default for SpawnEnv {
    fn default() -> (r: Self)
        ensures
            r.wayland_display@ == Seq::<char>::empty(),
            r.runtime_dir@ == Seq::<char>::empty(),
            r.x_display is None,
    {
        SpawnEnv { wayland_display: String::new(), runtime_dir: String::new(), x_display: None }
    }
}

impl Clone for SpawnEnv {
    fn clone(&self) -> (r: Self)
        ensures
            r == *self,
    {
        SpawnEnv {
            wayland_display: self.wayland_display.clone(),
            runtime_dir: self.runtime_dir.clone(),
            x_display: self.x_display,
        }
    }
}

// ---------------------------------------------------------------------------
// Discovery
// ---------------------------------------------------------------------------

/// The terminals that are looked for: Wayland-native first, then common X11
/// terminals (run via XWayland), then the Debian `x-terminal-emulator`
/// alternative.
pub open spec fn terminal_names() -> Seq<Seq<char>> {
    seq![
        "alacritty"@,
        "foot"@,
        "kitty"@,
        "wezterm"@,
        "gnome-terminal"@,
        "konsole"@,
        "xfce4-terminal"@,
        "tilix"@,
        "st"@,
        "urxvt"@,
        "rxvt"@,
        "x-terminal-emulator"@,
        "xterm"@,
    ]
}

/// The browsers that are looked for.
pub open spec fn browser_names() -> Seq<Seq<char>> {
    seq!["firefox"@, "chromium"@, "google-chrome"@, "epiphany"@]
}

/// Appends a word to a list of words.
fn push_word(v: &mut Vec<String>, s: &str)
    ensures
        text::views(final(v)@) == text::views(old(v)@).push(s@),
{
    let ghost before = v@;
    v.push(text::copy_text(s));
    assert(text::views(v@) =~= text::views(before).push(s@));
}

/// The terminals to look for, in order of preference.
pub fn terminal_candidates() -> (r: Vec<String>)
    ensures
        text::views(r@) == terminal_names(),
{
    let mut v: Vec<String> = Vec::new();
    assert(text::views(v@) =~= Seq::<Seq<char>>::empty());
    push_word(&mut v, "alacritty");
    push_word(&mut v, "foot");
    push_word(&mut v, "kitty");
    push_word(&mut v, "wezterm");
    push_word(&mut v, "gnome-terminal");
    push_word(&mut v, "konsole");
    push_word(&mut v, "xfce4-terminal");
    push_word(&mut v, "tilix");
    push_word(&mut v, "st");
    push_word(&mut v, "urxvt");
    push_word(&mut v, "rxvt");
    push_word(&mut v, "x-terminal-emulator");
    push_word(&mut v, "xterm");
    assert(text::views(v@) =~= terminal_names());
    v
}

/// The browsers to look for, in order of preference.
pub fn browser_candidates() -> (r: Vec<String>)
    ensures
        text::views(r@) == browser_names(),
{
    let mut v: Vec<String> = Vec::new();
    assert(text::views(v@) =~= Seq::<Seq<char>>::empty());
    push_word(&mut v, "firefox");
    push_word(&mut v, "chromium");
    push_word(&mut v, "google-chrome");
    push_word(&mut v, "epiphany");
    assert(text::views(v@) =~= browser_names());
    v
}

/// The first of `names` that is installed.
pub open spec fn first_installed(names: Seq<Seq<char>>, installed: Seq<Seq<char>>) -> Option<
    Seq<char>,
>
    decreases names.len(),
{
    if names.len() == 0 {
        None
    } else if installed.contains(names[0]) {
        Some(names[0])
    } else {
        first_installed(names.drop_first(), installed)
    }
}

/// Whether a list of words holds `s`.
pub fn has_word(v: &Vec<String>, s: &str) -> (r: bool)
    ensures
        r == text::views(v@).contains(s@),
{
    let mut i: usize = 0;
    while i < v.len()
        invariant
            i <= v@.len(),
            forall|j: int| 0 <= j < i ==> (#[trigger] v@[j])@ != s@,
        decreases v@.len() - i,
    {
        if text::same_text(&v[i], s) {
            assert(text::views(v@)[i as int] == s@);
            return true;
        }
        i += 1;
    }
    proof {
        if text::views(v@).contains(s@) {
            let k = choose|k: int| 0 <= k < v@.len() && text::views(v@)[k] == s@;
            assert(v@[k]@ == s@);
        }
    }
    false
}

/// Executable form of [`first_installed`].
fn pick(names: Vec<String>, installed: &Vec<String>) -> (r: Option<String>)
    ensures
        task::opt_view(r) == first_installed(text::views(names@), text::views(installed@)),
{
    let ghost all = text::views(names@);
    let ghost there = text::views(installed@);
    let mut i: usize = 0;
    assert(all.skip(0) =~= all);
    while i < names.len()
        invariant
            i <= names@.len(),
            all == text::views(names@),
            there == text::views(installed@),
            first_installed(all, there) == first_installed(all.skip(i as int), there),
        decreases names@.len() - i,
    {
        assert(all.skip(i as int)[0] == names@[i as int]@);
        if has_word(installed, &names[i]) {
            return Some(names[i].clone());
        }
        assert(all.skip(i as int).drop_first() =~= all.skip(i as int + 1));
        i += 1;
    }
    None
}

/// The terminal's command line: the configured one (`FOCUSWM_TERMINAL`) or the
/// first installed one. With nothing installed it is xterm, so that the failure
/// names a real terminal.
pub open spec fn terminal_words(configured: Option<Seq<char>>, installed: Seq<Seq<char>>) -> Seq<
    Seq<char>,
> {
    match configured {
        Some(t) => text::words(t),
        None => match first_installed(terminal_names(), installed) {
            Some(name) => seq![name],
            None => seq!["xterm"@],
        },
    }
}

/// The browser's command line: the configured one (`FOCUSWM_BROWSER`), the first
/// installed one, or whatever opens web pages.
pub open spec fn browser_words(configured: Option<Seq<char>>, installed: Seq<Seq<char>>) -> Seq<
    Seq<char>,
> {
    match configured {
        Some(b) => text::words(b),
        None => match first_installed(browser_names(), installed) {
            Some(name) => seq![name],
            None => seq!["xdg-open"@, "https://github.com"@],
        },
    }
}

/// Find a terminal emulator, preferring Wayland-native ones. Returns the program
/// plus any fixed arguments. `configured` is the value of `FOCUSWM_TERMINAL`,
/// `installed` the candidates that are on `PATH`.
pub fn terminal_command(configured: Option<String>, installed: &Vec<String>) -> (r: Vec<String>)
    ensures
        text::views(r@) == terminal_words(task::opt_view(configured), text::views(installed@)),
{
    if let Some(t) = configured {
        return split_command(&t);
    }
    let mut out: Vec<String> = Vec::new();
    assert(text::views(out@) =~= Seq::<Seq<char>>::empty());
    match pick(terminal_candidates(), installed) {
        Some(name) => push_word(&mut out, &name),
        None => push_word(&mut out, "xterm"),
    }
    assert(text::views(out@) =~= terminal_words(None, text::views(installed@)));
    out
}

/// Find a web browser. `configured` is the value of `FOCUSWM_BROWSER`,
/// `installed` the candidates that are on `PATH`.
pub fn browser_command(configured: Option<String>, installed: &Vec<String>) -> (r: Vec<String>)
    ensures
        text::views(r@) == browser_words(task::opt_view(configured), text::views(installed@)),
{
    if let Some(b) = configured {
        return split_command(&b);
    }
    let mut out: Vec<String> = Vec::new();
    assert(text::views(out@) =~= Seq::<Seq<char>>::empty());
    match pick(browser_candidates(), installed) {
        Some(name) => push_word(&mut out, &name),
        None => {
            push_word(&mut out, "xdg-open");
            push_word(&mut out, "https://github.com");
        },
    }
    assert(text::views(out@) =~= browser_words(None, text::views(installed@)));
    out
}

/// The first word of a command line, or `browser` for an empty one.
pub open spec fn label_of(words: Seq<Seq<char>>) -> Seq<char> {
    if words.len() > 0 {
        words[0]
    } else {
        "browser"@
    }
}

/// Executable form of [`label_of`].
fn label(cmd: &Vec<String>) -> (r: String)
    ensures
        r@ == label_of(text::views(cmd@)),
{
    if cmd.len() > 0 {
        cmd[0].clone()
    } else {
        text::copy_text("browser")
    }
}

/// A short human label for the configured browser (for the UI tooltip).
pub fn browser_name(configured: Option<String>, installed: &Vec<String>) -> (r: String)
    ensures
        r@ == label_of(browser_words(task::opt_view(configured), text::views(installed@))),
{
    let cmd = browser_command(configured, installed);
    label(&cmd)
}

/// Minimal whitespace split for a configured command line (no quoting support).
pub fn split_command(s: &str) -> (r: Vec<String>)
    ensures
        text::views(r@) == text::words(s@),
{
    text::split_words(s)
}

/// The words of a command line from the settings, or the detected ones where
/// the setting is blank.
pub open spec fn effective_words(setting: Seq<char>, detected: Seq<Seq<char>>) -> Seq<Seq<char>> {
    if text::trimmed(setting).len() == 0 {
        detected
    } else {
        text::words(text::trimmed(setting))
    }
}

/// The effective terminal or browser command: the one configured in the
/// settings, or the detected one.
pub fn effective_command(setting: &str, detected: Vec<String>) -> (r: Vec<String>)
    ensures
        text::views(r@) == effective_words(setting@, text::views(detected@)),
{
    let t = text::trim(setting);
    if is_blank(&t) {
        detected
    } else {
        split_command(&t)
    }
}

/// The browser's label for the tooltip: the configured command's program, or
/// the detected browser's name.
pub fn browser_label(setting: &str, detected: Vec<String>) -> (r: String)
    ensures
        r@ == label_of(effective_words(setting@, text::views(detected@))),
{
    let cmd = effective_command(setting, detected);
    label(&cmd)
}

// ---------------------------------------------------------------------------
// Browser isolation
// ---------------------------------------------------------------------------

/// The last component of a path that is neither empty nor `.`, unless it is
/// `..`.
pub open spec fn last_component(parts: Seq<Seq<char>>) -> Option<Seq<char>>
    decreases parts.len(),
{
    if parts.len() == 0 {
        None
    } else if parts.last().len() == 0 || parts.last() == "."@ {
        last_component(parts.drop_last())
    } else if parts.last() == ".."@ {
        None
    } else {
        Some(parts.last())
    }
}

/// The file name of a program's path, or the path itself where it has none.
pub open spec fn base_name(program: Seq<char>) -> Seq<char> {
    match last_component(scan::pieces(program, '/')) {
        Some(name) => name,
        None => program,
    }
}

/// Executable form of [`base_name`].
pub fn file_name(program: &str) -> (r: String)
    ensures
        r@ == base_name(program@),
{
    let v = text::chars_of(program);
    let parts = scan::split_at_char(&v, '/');
    let ghost all = scan::rows(parts@);
    let dot = text::chars_of(".");
    let dots = text::chars_of("..");
    let mut n: usize = parts.len();
    assert(all.take(n as int) =~= all);
    while n > 0
        invariant
            n <= parts@.len(),
            all == scan::rows(parts@),
            dot@ == "."@,
            dots@ == ".."@,
            last_component(all) == last_component(all.take(n as int)),
            base_name(program@) == match last_component(all) {
                Some(name) => name,
                None => program@,
            },
        decreases n,
    {
        let part = &parts[n - 1];
        proof {
            assert(all.take(n as int).last() == part@);
            assert(all.take(n as int).drop_last() =~= all.take(n - 1));
        }
        if part.len() == 0 || text::same_chars(part, &dot) {
            n -= 1;
        } else if text::same_chars(part, &dots) {
            return text::copy_text(program);
        } else {
            return text::text_of(part);
        }
    }
    text::copy_text(program)
}

/// How a program keeps its profiles.
#[derive(Debug, Clone, Copy, PartialEq, Eq, Structural)]
pub enum Family {
    Mozilla,
    Chromium,
    /// Not a browser that needs isolating.
    Other,
}

/// The programs with Mozilla profiles.
pub open spec fn mozilla_names() -> Seq<Seq<char>> {
    seq!["firefox"@, "firefox-esr"@, "librewolf"@, "thunderbird"@]
}

/// The programs with Chromium profiles.
pub open spec fn chromium_names() -> Seq<Seq<char>> {
    seq![
        "chromium"@,
        "chromium-browser"@,
        "google-chrome"@,
        "google-chrome-stable"@,
        "brave"@,
        "brave-browser"@,
        "microsoft-edge"@,
    ]
}

/// The family that a program name belongs to.
pub open spec fn family_of(name: Seq<char>) -> Family {
    if mozilla_names().contains(name) {
        Family::Mozilla
    } else if chromium_names().contains(name) {
        Family::Chromium
    } else {
        Family::Other
    }
}

/// Executable form of [`family_of`].
fn family(name: &str) -> (r: Family)
    ensures
        r == family_of(name@),
{
    let mut v: Vec<String> = Vec::new();
    assert(text::views(v@) =~= Seq::<Seq<char>>::empty());
    push_word(&mut v, "firefox");
    push_word(&mut v, "firefox-esr");
    push_word(&mut v, "librewolf");
    push_word(&mut v, "thunderbird");
    assert(text::views(v@) =~= mozilla_names());
    if has_word(&v, name) {
        return Family::Mozilla;
    }
    let mut w: Vec<String> = Vec::new();
    assert(text::views(w@) =~= Seq::<Seq<char>>::empty());
    push_word(&mut w, "chromium");
    push_word(&mut w, "chromium-browser");
    push_word(&mut w, "google-chrome");
    push_word(&mut w, "google-chrome-stable");
    push_word(&mut w, "brave");
    push_word(&mut w, "brave-browser");
    push_word(&mut w, "microsoft-edge");
    assert(text::views(w@) =~= chromium_names());
    if has_word(&w, name) {
        Family::Chromium
    } else {
        Family::Other
    }
}

/// The flags by which the user picks a profile or an instance.
pub open spec fn profile_flags(f: Family) -> Seq<Seq<char>> {
    match f {
        Family::Mozilla => seq!["--profile"@, "-P"@, "--no-remote"@, "--new-instance"@],
        Family::Chromium => seq!["--user-data-dir"@],
        Family::Other => Seq::empty(),
    }
}

/// Whether an argument is the flag, alone or with a value behind `=`.
pub open spec fn gives_flag(arg: Seq<char>, flag: Seq<char>) -> bool {
    arg == flag || scan::begins_with(arg, flag + "="@)
}

/// Whether any argument gives any of the flags.
pub open spec fn supplied(args: Seq<Seq<char>>, flags: Seq<Seq<char>>) -> bool {
    exists|i: int, j: int|
        0 <= i < args.len() && 0 <= j < flags.len() && gives_flag(
            #[trigger] args[i],
            #[trigger] flags[j],
        )
}

/// Whether any argument gives the flag.
fn flag_given(args: &Vec<String>, flag: &str) -> (r: bool)
    ensures
        r == exists|i: int| 0 <= i < args@.len() && gives_flag((#[trigger] args@[i])@, flag@),
{
    let mut with = text::copy_text(flag);
    text::append(&mut with, "=");
    let prefix = text::chars_of(&with);
    let mut i: usize = 0;
    while i < args.len()
        invariant
            i <= args@.len(),
            prefix@ == flag@ + "="@,
            forall|j: int| 0 <= j < i ==> !gives_flag((#[trigger] args@[j])@, flag@),
        decreases args@.len() - i,
    {
        let arg = text::chars_of(&args[i]);
        if text::same_text(&args[i], flag) || scan::starts_with(&arg, &prefix) {
            assert(gives_flag(args@[i as int]@, flag@));
            return true;
        }
        i += 1;
    }
    false
}

/// Whether any argument gives any of the flags.
fn any_flag_given(args: &Vec<String>, flags: &Vec<String>) -> (r: bool)
    ensures
        r == supplied(text::views(args@), text::views(flags@)),
{
    let ghost a = text::views(args@);
    let ghost f = text::views(flags@);
    let mut k: usize = 0;
    while k < flags.len()
        invariant
            k <= flags@.len(),
            a == text::views(args@),
            f == text::views(flags@),
            forall|i: int, j: int|
                0 <= i < a.len() && 0 <= j < k ==> !gives_flag(#[trigger] a[i], #[trigger] f[j]),
        decreases flags@.len() - k,
    {
        assert(f[k as int] == flags@[k as int]@);
        let given: bool = flag_given(args, &flags[k]);
        if given {
            proof {
                let i = choose|i: int|
                    0 <= i < args@.len() && gives_flag((#[trigger] args@[i])@, flags@[k as int]@);
                assert(gives_flag(a[i], f[k as int]));
            }
            return true;
        }
        assert forall|i: int| 0 <= i < a.len() implies !gives_flag(
            #[trigger] a[i],
            f[k as int],
        ) by {
            assert(a[i] == args@[i]@);
        }
        k += 1;
    }
    false
}

/// Executable form of [`profile_flags`].
fn flags_of(f: Family) -> (r: Vec<String>)
    ensures
        text::views(r@) == profile_flags(f),
{
    let mut v: Vec<String> = Vec::new();
    assert(text::views(v@) =~= Seq::<Seq<char>>::empty());
    match f {
        Family::Mozilla => {
            push_word(&mut v, "--profile");
            push_word(&mut v, "-P");
            push_word(&mut v, "--no-remote");
            push_word(&mut v, "--new-instance");
        },
        Family::Chromium => {
            push_word(&mut v, "--user-data-dir");
        },
        Family::Other => {},
    }
    assert(text::views(v@) =~= profile_flags(f));
    v
}

/// Whether a command has to be pinned to a private profile: it is a browser, and
/// the caller does not pick a profile or an instance.
pub open spec fn isolated(program: Seq<char>, args: Seq<Seq<char>>) -> bool {
    let f = family_of(base_name(program));
    f != Family::Other && !supplied(args, profile_flags(f))
}

/// The extra arguments that pin a browser to the profile directory, where there
/// is one.
pub open spec fn isolation(
    program: Seq<char>,
    args: Seq<Seq<char>>,
    profile: Option<Seq<char>>,
) -> Seq<Seq<char>> {
    if !isolated(program, args) {
        Seq::empty()
    } else {
        match (family_of(base_name(program)), profile) {
            (Family::Mozilla, Some(p)) => seq!["--new-instance"@, "--profile"@, p],
            (Family::Mozilla, None) => seq!["--new-instance"@],
            (Family::Chromium, Some(p)) => seq!["--user-data-dir="@ + p],
            _ => Seq::empty(),
        }
    }
}

/// The name of the private profile directory that a command needs, under the
/// directory for browser profiles.
pub fn profile_name(program: &str, args: &Vec<String>) -> (r: Option<String>)
    ensures
        task::opt_view(r) == if isolated(program@, text::views(args@)) {
            Some(base_name(program@))
        } else {
            None
        },
{
    let name = file_name(program);
    let f = family(&name);
    let flags = flags_of(f);
    if f != Family::Other && !any_flag_given(args, &flags) {
        Some(name)
    } else {
        None
    }
}

/// Extra arguments that pin a browser to a private profile so it starts a fresh
/// instance here instead of forwarding the request to an existing instance in
/// the parent session. Empty for non-browsers, or when the caller already
/// supplies its own profile/instance flags. `profile_dir` is the directory named
/// by [`profile_name`], if it could be created.
pub fn browser_isolation(program: &str, args: &Vec<String>, profile_dir: Option<String>) -> (r: Vec<
    String,
>)
    ensures
        text::views(r@) == isolation(program@, text::views(args@), task::opt_view(profile_dir)),
{
    let mut v: Vec<String> = Vec::new();
    assert(text::views(v@) =~= Seq::<Seq<char>>::empty());
    let ghost want = isolation(program@, text::views(args@), task::opt_view(profile_dir));
    match profile_name(program, args) {
        None => {},
        Some(name) => match (family(&name), profile_dir) {
            (Family::Mozilla, Some(p)) => {
                push_word(&mut v, "--new-instance");
                push_word(&mut v, "--profile");
                push_word(&mut v, &p);
            },
            (Family::Mozilla, None) => push_word(&mut v, "--new-instance"),
            (Family::Chromium, Some(p)) => {
                let mut flag = text::copy_text("--user-data-dir=");
                text::append(&mut flag, &p);
                push_word(&mut v, &flag);
            },
            _ => {},
        },
    }
    assert(text::views(v@) =~= want);
    v
}

// ---------------------------------------------------------------------------
// Launching
// ---------------------------------------------------------------------------

/// An environment variable of a client.
#[derive(Debug, PartialEq, Eq)]
pub struct EnvVar {
    pub name: String,
    /// `None` removes the variable.
    pub value: Option<String>,
}

/// What to run.
#[derive(Debug, PartialEq, Eq)]
pub struct Launch {
    pub program: String,
    pub args: Vec<String>,
    /// Changes to the inherited environment, in order.
    pub env: Vec<EnvVar>,
    pub cwd: Option<String>,
}

/// What the variables hold.
pub open spec fn var_views(v: Seq<EnvVar>) -> Seq<(Seq<char>, Option<Seq<char>>)> {
    v.map_values(|e: EnvVar| (e.name@, task::opt_view(e.value)))
}

/// The environment of a client: our Wayland socket, the Wayland backend in
/// toolkits that autodetect, and our X server. While there is none, `DISPLAY` is
/// empty and `XAUTHORITY` removed, so that X11 clients fail to connect rather
/// than open in the parent session.
pub open spec fn client_env(env: SpawnEnv) -> Seq<(Seq<char>, Option<Seq<char>>)> {
    let base = seq![
        ("WAYLAND_DISPLAY"@, Some(env.wayland_display@)),
        ("XDG_RUNTIME_DIR"@, Some(env.runtime_dir@)),
        ("GDK_BACKEND"@, Some("wayland"@)),
        ("QT_QPA_PLATFORM"@, Some("wayland"@)),
        ("MOZ_ENABLE_WAYLAND"@, Some("1"@)),
    ];
    match env.x_display {
        Some(n) => base.push(("DISPLAY"@, Some(":"@ + scan::decimal(n as nat)))),
        None => base.push(("DISPLAY"@, Some(Seq::empty()))).push(("XAUTHORITY"@, None)),
    }
}

/// Appends a variable that is to be set.
fn set_var(v: &mut Vec<EnvVar>, name: &str, value: &str)
    ensures
        var_views(final(v)@) == var_views(old(v)@).push((name@, Some(value@))),
{
    let ghost before = v@;
    v.push(EnvVar { name: text::copy_text(name), value: Some(text::copy_text(value)) });
    assert(var_views(v@) =~= var_views(before).push((name@, Some(value@))));
}

/// Executable form of [`client_env`].
fn env_of(env: &SpawnEnv) -> (r: Vec<EnvVar>)
    ensures
        var_views(r@) == client_env(*env),
{
    let mut v: Vec<EnvVar> = Vec::new();
    assert(var_views(v@) =~= Seq::<(Seq<char>, Option<Seq<char>>)>::empty());
    set_var(&mut v, "WAYLAND_DISPLAY", &env.wayland_display);
    set_var(&mut v, "XDG_RUNTIME_DIR", &env.runtime_dir);
    set_var(&mut v, "GDK_BACKEND", "wayland");
    set_var(&mut v, "QT_QPA_PLATFORM", "wayland");
    set_var(&mut v, "MOZ_ENABLE_WAYLAND", "1");
    match env.x_display {
        Some(n) => {
            let digits = scan::decimal_chars(n as u64);
            let number = text::text_of(&digits);
            let display = text::concat3(":", &number, "");
            proof {
                reveal_strlit("");
                assert(display@ =~= ":"@ + scan::decimal(n as nat));
            }
            set_var(&mut v, "DISPLAY", &display);
        },
        None => {
            proof {
                reveal_strlit("");
                assert(""@ =~= Seq::empty());
            }
            set_var(&mut v, "DISPLAY", "");
            let ghost before = v@;
            v.push(EnvVar { name: text::copy_text("XAUTHORITY"), value: None });
            assert(var_views(v@) =~= var_views(before).push(("XAUTHORITY"@, None)));
        },
    }
    assert(var_views(v@) =~= client_env(*env));
    v
}

impl Launch {
    /// Whether this runs the command line `words` as a client of the compositor:
    /// its program and arguments, with those that isolate a browser behind them.
    pub open spec fn runs(
        self,
        words: Seq<Seq<char>>,
        env: SpawnEnv,
        cwd: Option<String>,
        profile: Option<Seq<char>>,
    ) -> bool {
        let args = words.drop_first();
        &&& self.program@ == words[0]
        &&& text::views(self.args@) == args + isolation(words[0], args, profile)
        &&& var_views(self.env@) == client_env(env)
        &&& self.cwd == cwd
    }
}

/// What runs `cmd` as a Wayland client of the compositor, optionally in `cwd`:
/// its program and arguments, with those that isolate a browser behind them, in
/// the client environment. An empty command is an error, whose text is meant to
/// be shown.
pub fn spawn(
    cmd: &Vec<String>,
    env: &SpawnEnv,
    cwd: Option<String>,
    profile_dir: Option<String>,
) -> (r: Result<Launch, String>)
    ensures
        match r {
            Ok(l) => cmd@.len() > 0 && l.runs(
                text::views(cmd@),
                *env,
                cwd,
                task::opt_view(profile_dir),
            ),
            Err(e) => cmd@.len() == 0 && e@ == "empty command"@,
        },
{
    if cmd.len() == 0 {
        return Err(text::copy_text("empty command"));
    }
    let program = cmd[0].clone();
    let mut args = args_of(cmd);
    let mut extra = browser_isolation(&program, &args, profile_dir);
    let ghost first = args@;
    let ghost more = extra@;
    args.append(&mut extra);
    assert(text::views(args@) =~= text::views(first) + text::views(more));
    Ok(Launch { program, args, env: env_of(env), cwd })
}

/// The arguments of a command line: everything behind the program.
pub fn args_of(cmd: &Vec<String>) -> (r: Vec<String>)
    requires
        cmd@.len() > 0,
    ensures
        text::views(r@) == text::views(cmd@).drop_first(),
{
    let mut args: Vec<String> = Vec::new();
    let mut i: usize = 1;
    while i < cmd.len()
        invariant
            1 <= i <= cmd@.len(),
            args@ == cmd@.subrange(1, i as int),
        decreases cmd@.len() - i,
    {
        args.push(cmd[i].clone());
        assert(args@ =~= cmd@.subrange(1, i as int + 1));
        i += 1;
    }
    assert(text::views(args@) =~= text::views(cmd@).drop_first());
    args
}

/// The text for a program that could not be launched.
pub fn launch_failure(program: &str, error: &str) -> (r: String)
    ensures
        r@ == "failed to launch "@ + program@ + ": "@ + error@,
{
    let mut s = text::concat3("failed to launch ", program, ": ");
    text::append(&mut s, error);
    s
}

/// What a launch request comes to.
#[derive(Debug, PartialEq, Eq)]
pub enum LaunchStep {
    /// The compositor is not ready yet: nothing is launched.
    NotReady,
    Run(Launch),
    /// A message to show.
    Failed(String),
}

/// Decides a request to launch a client: nothing happens before the compositor
/// has a socket.
pub fn launch_client(
    cmd: &Vec<String>,
    env: &SpawnEnv,
    cwd: Option<String>,
    profile_dir: Option<String>,
) -> (r: LaunchStep)
    ensures
        match r {
            LaunchStep::NotReady => env.wayland_display@.len() == 0,
            LaunchStep::Run(l) => env.wayland_display@.len() > 0 && cmd@.len() > 0 && l.runs(
                text::views(cmd@),
                *env,
                cwd,
                task::opt_view(profile_dir),
            ),
            LaunchStep::Failed(e) => env.wayland_display@.len() > 0 && cmd@.len() == 0 && e@
                == "empty command"@,
        },
{
    if is_blank(&env.wayland_display) {
        return LaunchStep::NotReady;
    }
    match spawn(cmd, env, cwd, profile_dir) {
        Ok(l) => LaunchStep::Run(l),
        Err(e) => LaunchStep::Failed(e),
    }
}

// ---------------------------------------------------------------------------
// Laws
// ---------------------------------------------------------------------------

/// Where the user picks a profile or an instance, the command line is left
/// alone.
pub proof fn law_user_flags_are_respected(
    program: Seq<char>,
    args: Seq<Seq<char>>,
    profile: Option<Seq<char>>,
)
    requires
        supplied(args, profile_flags(family_of(base_name(program)))),
    ensures
        isolation(program, args, profile) == Seq::<Seq<char>>::empty(),
{
}

/// Isolating a command twice adds nothing the second time, as long as the
/// profile directory was there.
pub proof fn law_isolation_is_idempotent(
    program: Seq<char>,
    args: Seq<Seq<char>>,
    profile: Seq<char>,
)
    ensures
        isolation(program, args + isolation(program, args, Some(profile)), Some(profile))
            == Seq::<Seq<char>>::empty(),
{
    let f = family_of(base_name(program));
    let flags = profile_flags(f);
    let extra = isolation(program, args, Some(profile));
    let all = args + extra;
    if f == Family::Other {
    } else if supplied(args, flags) {
        let (i, j) = choose|i: int, j: int|
            0 <= i < args.len() && 0 <= j < flags.len() && gives_flag(
                #[trigger] args[i],
                #[trigger] flags[j],
            );
        assert(all[i] == args[i]);
        assert(gives_flag(all[i], flags[j]));
    } else if f == Family::Mozilla {
        assert(all[args.len() as int] == "--new-instance"@);
        assert(gives_flag(all[args.len() as int], flags[3]));
    } else {
        let n = args.len() as int;
        assert(all[n] == "--user-data-dir="@ + profile);
        reveal_strlit("--user-data-dir=");
        reveal_strlit("--user-data-dir");
        reveal_strlit("=");
        assert("--user-data-dir="@ =~= "--user-data-dir"@ + "="@);
        let prefix = "--user-data-dir"@ + "="@;
        assert(all[n].subrange(0, prefix.len() as int) =~= prefix);
        assert(gives_flag(all[n], flags[0]));
    }
}

/// A client never inherits the parent session's displays: both are always set,
/// and without an X server of ours nothing authorises a connection to another.
pub proof fn law_clients_stay_inside(env: SpawnEnv)
    ensures
        client_env(env)[0] == ("WAYLAND_DISPLAY"@, Some(env.wayland_display@)),
        client_env(env)[5].0 == "DISPLAY"@,
        client_env(env)[5].1 is Some,
        env.x_display is None ==> client_env(env).contains(("XAUTHORITY"@, None)),
{
    if env.x_display is None {
        assert(client_env(env)[6] == ("XAUTHORITY"@, None::<Seq<char>>));
    }
}

/// Of the candidates, the first that is installed is taken.
pub proof fn law_first_installed_is_taken(
    names: Seq<Seq<char>>,
    installed: Seq<Seq<char>>,
    k: int,
)
    requires
        0 <= k <= names.len(),
        k < names.len() ==> installed.contains(names[k]),
        forall|j: int| 0 <= j < k ==> !installed.contains(#[trigger] names[j]),
    ensures
        k < names.len() ==> first_installed(names, installed) == Some(names[k]),
        k == names.len() ==> first_installed(names, installed) is None,
    decreases names.len(),
{
    if k > 0 {
        let d = names.drop_first();
        assert(!installed.contains(names[0]));
        assert forall|j: int| 0 <= j < k - 1 implies !installed.contains(#[trigger] d[j]) by {
            assert(d[j] == names[j + 1]);
        }
        if k < names.len() {
            assert(d[k - 1] == names[k]);
        }
        law_first_installed_is_taken(d, installed, k - 1);
    }
}

/// Without a configured terminal, the first installed of the known ones is run,
/// and xterm where none is; a configured one is run with its arguments.
pub proof fn law_terminal_preference(installed: Seq<Seq<char>>, k: int)
    requires
        0 <= k <= 13,
    ensures
        ({
            let known = seq![
                "alacritty"@,
                "foot"@,
                "kitty"@,
                "wezterm"@,
                "gnome-terminal"@,
                "konsole"@,
                "xfce4-terminal"@,
                "tilix"@,
                "st"@,
                "urxvt"@,
                "rxvt"@,
                "x-terminal-emulator"@,
                "xterm"@,
            ];
            &&& k < 13 && installed.contains(known[k]) && (forall|j: int|
                0 <= j < k ==> !installed.contains(#[trigger] known[j])) ==> terminal_words(
                None,
                installed,
            ) == seq![known[k]]
            &&& (forall|j: int| 0 <= j < 13 ==> !installed.contains(#[trigger] known[j]))
                ==> terminal_words(None, installed) == seq!["xterm"@]
        }),
{
    let known = terminal_names();
    if k < 13 && installed.contains(known[k]) && (forall|j: int|
        0 <= j < k ==> !installed.contains(#[trigger] known[j])) {
        law_first_installed_is_taken(known, installed, k);
    }
    if forall|j: int| 0 <= j < 13 ==> !installed.contains(#[trigger] known[j]) {
        law_first_installed_is_taken(known, installed, 13);
    }
}

/// Without a configured browser, the first installed of the known ones is run, and
/// otherwise whatever opens a web page.
pub proof fn law_browser_preference(installed: Seq<Seq<char>>, k: int)
    requires
        0 <= k <= 4,
    ensures
        ({
            let known = seq!["firefox"@, "chromium"@, "google-chrome"@, "epiphany"@];
            &&& k < 4 && installed.contains(known[k]) && (forall|j: int|
                0 <= j < k ==> !installed.contains(#[trigger] known[j])) ==> browser_words(
                None,
                installed,
            ) == seq![known[k]]
            &&& (forall|j: int| 0 <= j < 4 ==> !installed.contains(#[trigger] known[j]))
                ==> browser_words(None, installed) == seq!["xdg-open"@, "https://github.com"@]
        }),
{
    let known = browser_names();
    if k < 4 && installed.contains(known[k]) && (forall|j: int|
        0 <= j < k ==> !installed.contains(#[trigger] known[j])) {
        law_first_installed_is_taken(known, installed, k);
    }
    if forall|j: int| 0 <= j < 4 ==> !installed.contains(#[trigger] known[j]) {
        law_first_installed_is_taken(known, installed, 4);
    }
}

/// A configured command is what runs, word by word; a setting that is not blank
/// comes before what was detected.
pub proof fn law_configured_commands_come_first(
    command: Seq<char>,
    installed: Seq<Seq<char>>,
    detected: Seq<Seq<char>>,
    i: int,
)
    ensures
        terminal_words(Some(command), installed) == text::words(command),
        browser_words(Some(command), installed) == text::words(command),
        0 <= i < command.len() && !text::is_space(command[i]) ==> effective_words(
            command,
            detected,
        ) == text::words(text::trimmed(command)),
        (forall|j: int| 0 <= j < command.len() ==> text::is_space(#[trigger] command[j]))
            ==> effective_words(command, detected) == detected,
{
    text::lemma_trimmed_empty(command);
}

/// A command is labelled by its program.
pub proof fn law_label_is_the_program(words: Seq<Seq<char>>)
    ensures
        words.len() > 0 ==> label_of(words) == words.first(),
        words.len() == 0 ==> label_of(words) == "browser"@,
{
}

/// The name of a program is what stands behind the last slash of its path.
pub proof fn law_base_name_is_the_last_component(dir: Seq<char>, name: Seq<char>)
    requires
        name.len() > 0,
        !name.contains('/'),
        name != "."@,
        name != ".."@,
    ensures
        base_name(name) == name,
        base_name(dir + seq!['/'] + name) == name,
{
    assert forall|i: int| 0 <= i < name.len() implies name[i] != '/' by {
        assert(name.contains(name[i]));
    }
    scan::lemma_first_of_unique(name, '/', name.len() as int);
    assert(scan::pieces(name, '/') =~= seq![name]);
    assert(seq![name].last() == name);
    lemma_last_piece(dir, name);
    let p = scan::pieces(dir + seq!['/'] + name, '/');
    assert(last_component(p) == Some(name));
}

proof fn lemma_last_piece(dir: Seq<char>, name: Seq<char>)
    requires
        forall|i: int| 0 <= i < name.len() ==> name[i] != '/',
    ensures
        scan::pieces(dir + seq!['/'] + name, '/').len() > 0,
        scan::pieces(dir + seq!['/'] + name, '/').last() == name,
    decreases dir.len(),
{
    let s = dir + seq!['/'] + name;
    scan::lemma_first_of(dir, '/');
    let k = scan::first_of(dir, '/');
    if k >= dir.len() {
        let n = dir.len() as int;
        assert(s[n] == '/');
        assert forall|j: int| 0 <= j < n implies s[j] != '/' by {
            assert(s[j] == dir[j]);
        }
        scan::lemma_first_of_unique(s, '/', n);
        assert(s.skip(n + 1) =~= name);
        scan::lemma_first_of_unique(name, '/', name.len() as int);
        assert(scan::pieces(name, '/') =~= seq![name]);
        assert(scan::pieces(s, '/') =~= seq![s.take(n)] + seq![name]);
    } else {
        assert(s[k] == '/');
        assert forall|j: int| 0 <= j < k implies s[j] != '/' by {
            assert(s[j] == dir[j]);
        }
        scan::lemma_first_of_unique(s, '/', k);
        let rest = dir.skip(k + 1);
        assert(s.skip(k + 1) =~= rest + seq!['/'] + name);
        lemma_last_piece(rest, name);
        let t = scan::pieces(rest + seq!['/'] + name, '/');
        assert(scan::pieces(s, '/') =~= seq![s.take(k)] + t);
        assert((seq![s.take(k)] + t).last() == t.last());
    }
}

/// A browser of the Mozilla family gets an instance and, where there is one, a
/// profile of its own, unless its arguments already choose one.
pub proof fn law_mozilla_gets_its_own_profile(
    program: Seq<char>,
    args: Seq<Seq<char>>,
    profile: Seq<char>,
    k: int,
)
    requires
        0 <= k < 4,
        base_name(program) == seq!["firefox"@, "firefox-esr"@, "librewolf"@, "thunderbird"@][k],
        forall|i: int| #![trigger args[i]]
            0 <= i < args.len() ==> {
                &&& args[i] != "--profile"@ && args[i] != "-P"@ && args[i] != "--no-remote"@
                    && args[i] != "--new-instance"@
                &&& !scan::begins_with(args[i], "--profile"@ + "="@) && !scan::begins_with(
                    args[i],
                    "-P"@ + "="@,
                ) && !scan::begins_with(args[i], "--no-remote"@ + "="@) && !scan::begins_with(
                    args[i],
                    "--new-instance"@ + "="@,
                )
            },
    ensures
        isolation(program, args, Some(profile)) == seq!["--new-instance"@, "--profile"@, profile],
        isolation(program, args, None) == seq!["--new-instance"@],
        isolated(program, args),
{
    let names = mozilla_names();
    assert(names[k] == base_name(program));
    assert(names.contains(base_name(program)));
    let flags = profile_flags(Family::Mozilla);
    if supplied(args, flags) {
        let (i, j) = choose|i: int, j: int|
            0 <= i < args.len() && 0 <= j < flags.len() && gives_flag(
                #[trigger] args[i],
                #[trigger] flags[j],
            );
        assert(flags[0] == "--profile"@ && flags[1] == "-P"@ && flags[2] == "--no-remote"@
            && flags[3] == "--new-instance"@);
    }
}

/// A browser of the Chromium family gets a data directory of its own where there
/// is one, unless its arguments already give one.
pub proof fn law_chromium_gets_its_own_data_dir(
    program: Seq<char>,
    args: Seq<Seq<char>>,
    profile: Seq<char>,
    k: int,
)
    requires
        0 <= k < 7,
        base_name(program) == seq![
            "chromium"@,
            "chromium-browser"@,
            "google-chrome"@,
            "google-chrome-stable"@,
            "brave"@,
            "brave-browser"@,
            "microsoft-edge"@,
        ][k],
        forall|i: int| #![trigger args[i]]
            0 <= i < args.len() ==> args[i] != "--user-data-dir"@ && !scan::begins_with(
                args[i],
                "--user-data-dir"@ + "="@,
            ),
    ensures
        isolation(program, args, Some(profile)) == seq!["--user-data-dir="@ + profile],
        isolation(program, args, None) == Seq::<Seq<char>>::empty(),
        isolated(program, args),
{
    reveal_strlit("firefox");
    reveal_strlit("firefox-esr");
    reveal_strlit("librewolf");
    reveal_strlit("thunderbird");
    reveal_strlit("chromium");
    reveal_strlit("chromium-browser");
    reveal_strlit("google-chrome");
    reveal_strlit("google-chrome-stable");
    reveal_strlit("brave");
    reveal_strlit("brave-browser");
    reveal_strlit("microsoft-edge");
    let name = base_name(program);
    let names = chromium_names();
    assert(names[k] == name);
    assert(names.contains(name));
    if mozilla_names().contains(name) {
        let m = choose|m: int| 0 <= m < mozilla_names().len() && mozilla_names()[m] == name;
        assert(mozilla_names()[0] == "firefox"@ && mozilla_names()[1] == "firefox-esr"@
            && mozilla_names()[2] == "librewolf"@ && mozilla_names()[3] == "thunderbird"@);
        assert(mozilla_names()[m][0] == 'f' || mozilla_names()[m][0] == 'l'
            || mozilla_names()[m][0] == 't');
        assert(names[k][0] == 'c' || names[k][0] == 'g' || names[k][0] == 'b' || names[k][0]
            == 'm');
        assert(false);
    }
    let flags = profile_flags(Family::Chromium);
    if supplied(args, flags) {
        let (i, j) = choose|i: int, j: int|
            0 <= i < args.len() && 0 <= j < flags.len() && gives_flag(
                #[trigger] args[i],
                #[trigger] flags[j],
            );
        assert(flags[0] == "--user-data-dir"@);
    }
}

/// Any other program runs with its own arguments alone.
pub proof fn law_other_programs_are_not_isolated(
    program: Seq<char>,
    args: Seq<Seq<char>>,
    profile: Option<Seq<char>>,
)
    requires
        ({
            let name = base_name(program);
            &&& name != "firefox"@ && name != "firefox-esr"@ && name != "librewolf"@ && name
                != "thunderbird"@
            &&& name != "chromium"@ && name != "chromium-browser"@ && name != "google-chrome"@
                && name != "google-chrome-stable"@
            &&& name != "brave"@ && name != "brave-browser"@ && name != "microsoft-edge"@
        }),
    ensures
        isolation(program, args, profile).len() == 0,
        !isolated(program, args),
{
    let name = base_name(program);
    if mozilla_names().contains(name) {
        let m = choose|m: int| 0 <= m < mozilla_names().len() && mozilla_names()[m] == name;
        assert(mozilla_names()[m] == name);
    }
    if chromium_names().contains(name) {
        let m = choose|m: int| 0 <= m < chromium_names().len() && chromium_names()[m] == name;
        assert(chromium_names()[m] == name);
    }
}

/// A client is told where the Wayland server is and to use it, and gets the X
/// display of this session where there is one and none otherwise.
pub proof fn law_client_environment(env: SpawnEnv)
    ensures
        ({
            let v = client_env(env);
            &&& v.contains(("WAYLAND_DISPLAY"@, Some(env.wayland_display@)))
            &&& v.contains(("XDG_RUNTIME_DIR"@, Some(env.runtime_dir@)))
            &&& v.contains(("GDK_BACKEND"@, Some("wayland"@)))
            &&& v.contains(("QT_QPA_PLATFORM"@, Some("wayland"@)))
            &&& v.contains(("MOZ_ENABLE_WAYLAND"@, Some("1"@)))
            &&& env.x_display matches Some(n) ==> v.len() == 6 && v.contains(
                ("DISPLAY"@, Some(seq![':'] + scan::decimal(n as nat))),
            )
            &&& env.x_display is None ==> v.len() == 7 && v.contains(
                ("DISPLAY"@, Some(Seq::<char>::empty())),
            ) && v.contains(("XAUTHORITY"@, None))
        }),
{
    reveal_strlit(":");
    let v = client_env(env);
    assert(v[0] == ("WAYLAND_DISPLAY"@, Some(env.wayland_display@)));
    assert(v[1] == ("XDG_RUNTIME_DIR"@, Some(env.runtime_dir@)));
    assert(v[2] == ("GDK_BACKEND"@, Some("wayland"@)));
    assert(v[3] == ("QT_QPA_PLATFORM"@, Some("wayland"@)));
    assert(v[4] == ("MOZ_ENABLE_WAYLAND"@, Some("1"@)));
    match env.x_display {
        Some(n) => {
            assert(":"@ =~= seq![':']);
            assert(v[5] == ("DISPLAY"@, Some(seq![':'] + scan::decimal(n as nat))));
        },
        None => {
            assert(v[5] == ("DISPLAY"@, Some(Seq::<char>::empty())));
            assert(v[6] == ("XAUTHORITY"@, None::<Seq<char>>));
        },
    }
}

/// A launch runs the first word with the others as its arguments, followed by what
/// isolates it, in the given directory.
pub proof fn law_launch_runs_the_command(
    l: Launch,
    words: Seq<Seq<char>>,
    env: SpawnEnv,
    cwd: Option<String>,
    profile: Option<Seq<char>>,
    i: int,
)
    requires
        words.len() > 0,
        l.runs(words, env, cwd, profile),
    ensures
        l.program@ == words[0],
        l.cwd == cwd,
        text::views(l.args@).len() >= words.len() - 1,
        1 <= i < words.len() ==> text::views(l.args@)[i - 1] == words[i],
        text::views(l.args@).skip(words.len() - 1) == isolation(
            words[0],
            words.drop_first(),
            profile,
        ),
        var_views(l.env@) == client_env(env),
{
    let args = words.drop_first();
    let more = isolation(words[0], args, profile);
    assert((args + more).skip(words.len() - 1) =~= more);
}

/// A slash behind the name changes nothing; a path that ends in ".." has no name
/// of its own and stands for itself.
pub proof fn law_base_name_of_directories(dir: Seq<char>, name: Seq<char>)
    requires
        name.len() > 0,
        !name.contains('/'),
        name != "."@,
        name != ".."@,
    ensures
        base_name(dir + seq!['/'] + name + seq!['/']) == name,
        base_name(dir + seq!['/'] + ".."@) == dir + seq!['/'] + ".."@,
{
    reveal_strlit("..");
    reveal_strlit(".");
    let s = dir + seq!['/'] + name;
    assert forall|i: int| 0 <= i < name.len() implies name[i] != '/' by {
        assert(name.contains(name[i]));
    }
    lemma_last_piece(dir, name);
    lemma_pieces_then_empty(s);
    let p = scan::pieces(s, '/');
    let q = scan::pieces(s + seq!['/'], '/');
    assert(q.drop_last() =~= p);
    assert(q.last().len() == 0);
    assert(last_component(p) == Some(name));
    assert(last_component(q) == Some(name));
    lemma_last_piece(dir, ".."@);
    assert(last_component(scan::pieces(dir + seq!['/'] + ".."@, '/')) is None);
}

/// A slash at the end adds an empty piece.
proof fn lemma_pieces_then_empty(s: Seq<char>)
    ensures
        scan::pieces(s + seq!['/'], '/') == scan::pieces(s, '/').push(Seq::empty()),
    decreases s.len(),
{
    let all = s + seq!['/'];
    scan::lemma_first_of(s, '/');
    let k = scan::first_of(s, '/');
    let none = Seq::<char>::empty();
    if k >= s.len() {
        assert(all[s.len() as int] == '/');
        assert forall|j: int| 0 <= j < s.len() implies all[j] != '/' by {
            assert(all[j] == s[j]);
        }
        scan::lemma_first_of_unique(all, '/', s.len() as int);
        assert(all.take(s.len() as int) =~= s);
        assert(all.skip(s.len() as int + 1) =~= none);
        scan::lemma_first_of_unique(none, '/', 0);
        assert(scan::pieces(none, '/') =~= seq![none]);
        assert(scan::pieces(all, '/') =~= seq![s, none]);
        assert(scan::pieces(s, '/') =~= seq![s]);
        assert(seq![s].push(none) =~= seq![s, none]);
    } else {
        assert(all[k] == '/');
        assert forall|j: int| 0 <= j < k implies all[j] != '/' by {
            assert(all[j] == s[j]);
        }
        scan::lemma_first_of_unique(all, '/', k);
        assert(all.take(k) =~= s.take(k));
        let rest = s.skip(k + 1);
        assert(all.skip(k + 1) =~= rest + seq!['/']);
        lemma_pieces_then_empty(rest);
        assert(scan::pieces(all, '/') =~= scan::pieces(s, '/').push(none));
    }
}

/// A profile that the arguments choose, as a flag of its own or with its value
/// behind an equals sign, is left to them.
pub proof fn law_chosen_profiles_are_left_alone(
    program: Seq<char>,
    args: Seq<Seq<char>>,
    profile: Option<Seq<char>>,
    i: int,
    k: int,
    value: Seq<char>,
)
    requires
        0 <= i < args.len(),
        base_name(program) == "firefox"@ ==> 0 <= k < 4,
        base_name(program) == "firefox"@ ==> ({
            let flag = seq!["--profile"@, "-P"@, "--no-remote"@, "--new-instance"@][k];
            args[i] == flag || args[i] == flag + "="@ + value
        }),
        base_name(program) == "chromium"@ ==> args[i] == "--user-data-dir"@ || args[i]
            == "--user-data-dir"@ + "="@ + value,
        base_name(program) == "firefox"@ || base_name(program) == "chromium"@,
    ensures
        isolation(program, args, profile).len() == 0,
        !isolated(program, args),
{
    reveal_strlit("firefox");
    reveal_strlit("firefox-esr");
    reveal_strlit("librewolf");
    reveal_strlit("thunderbird");
    reveal_strlit("chromium");
    let f = family_of(base_name(program));
    let flags = profile_flags(f);
    if base_name(program) == "firefox"@ {
        assert(mozilla_names()[0] == base_name(program));
        let flag = flags[k];
        if args[i] != flag {
            assert(args[i].subrange(0, (flag + "="@).len() as int) =~= flag + "="@);
        }
        assert(gives_flag(args[i], flags[k]));
    } else {
        assert(chromium_names()[0] == base_name(program));
        assert(!mozilla_names().contains(base_name(program))) by {
            assert(mozilla_names()[0][0] == 'f' && mozilla_names()[1][0] == 'f'
                && mozilla_names()[2][0] == 'l' && mozilla_names()[3][0] == 't');
            assert(base_name(program)[0] == 'c');
        }
        let flag = flags[0];
        if args[i] != flag {
            assert(args[i].subrange(0, (flag + "="@).len() as int) =~= flag + "="@);
        }
        assert(gives_flag(args[i], flags[0]));
    }
}

} // verus!
