use focuswm::color::{parse_hex_color, task_tint, Rgb};
use focuswm::launch::{
    args_of, browser_candidates, browser_command, browser_isolation, browser_label, browser_name,
    effective_command, file_name, launch_client, launch_failure, profile_name, spawn,
    split_command, terminal_candidates, terminal_command, LaunchStep, SpawnEnv,
};
use focuswm::socket::{BindAction, BindOutcome, Binder};

fn words(v: &[&str]) -> Vec<String> {
    v.iter().map(|s| s.to_string()).collect()
}

#[test]
fn non_browsers_get_no_extra_args() {
    assert!(browser_isolation("alacritty", &vec![], Some("/p".into())).is_empty());
    assert!(browser_isolation("/usr/bin/htop", &vec![], Some("/p".into())).is_empty());
}

#[test]
fn firefox_is_forced_into_a_fresh_private_instance() {
    // Resolved by basename, so an absolute path still matches.
    let args = browser_isolation("/usr/bin/firefox", &vec![], Some("/p".into()));
    assert!(args.contains(&"--new-instance".to_string()));
}

#[test]
fn chromium_gets_a_dedicated_user_data_dir() {
    let args = browser_isolation("chromium", &vec![], Some("/p".into()));
    assert!(args.iter().any(|a| a.starts_with("--user-data-dir")));
}

#[test]
fn user_supplied_profile_flags_are_respected() {
    let firefox = browser_isolation("firefox", &words(&["-P", "work"]), Some("/p".into()));
    assert!(firefox.is_empty());
    let chromium =
        browser_isolation("chromium", &words(&["--user-data-dir=/tmp/x"]), Some("/p".into()));
    assert!(chromium.is_empty());
}

#[test]
fn isolation_names_the_profile() {
    assert_eq!(
        browser_isolation("firefox", &vec![], Some("/data/firefox".into())),
        words(&["--new-instance", "--profile", "/data/firefox"])
    );
    assert_eq!(browser_isolation("firefox", &vec![], None), words(&["--new-instance"]));
    assert_eq!(
        browser_isolation("brave", &vec![], Some("/d".into())),
        words(&["--user-data-dir=/d"])
    );
    assert!(browser_isolation("brave", &vec![], None).is_empty());
    assert_eq!(profile_name("/usr/bin/firefox", &vec![]), Some("firefox".to_string()));
    assert_eq!(profile_name("firefox", &words(&["--profile=x"])), None);
    assert_eq!(profile_name("foot", &vec![]), None);
}

#[test]
fn isolating_twice_adds_nothing() {
    for program in ["firefox", "chromium"] {
        let mut args = words(&["https://example.org"]);
        args.extend(browser_isolation(program, &args, Some("/p".into())));
        assert!(browser_isolation(program, &args, Some("/p".into())).is_empty());
    }
}

#[test]
fn file_names_are_the_last_component() {
    assert_eq!(file_name("/usr/bin/firefox"), "firefox");
    assert_eq!(file_name("firefox"), "firefox");
    assert_eq!(file_name("/opt/firefox/"), "firefox");
    assert_eq!(file_name("/opt/firefox/."), "firefox");
    assert_eq!(file_name("a/.."), "a/..");
    assert_eq!(file_name("/"), "/");
    for p in ["/usr/bin/firefox", "x", "/opt/x/", "/opt/x/.", "a//b", "./c"] {
        let std = std::path::Path::new(p).file_name().and_then(|s| s.to_str()).unwrap_or(p);
        assert_eq!(file_name(p), std);
    }
}

#[test]
fn terminals_and_browsers_are_found_in_order() {
    assert_eq!(terminal_candidates().len(), 13);
    assert_eq!(browser_candidates(), words(&["firefox", "chromium", "google-chrome", "epiphany"]));
    assert_eq!(terminal_command(None, &words(&["xterm", "foot"])), words(&["foot"]));
    assert_eq!(terminal_command(None, &vec![]), words(&["xterm"]));
    assert_eq!(
        terminal_command(Some(" foot  -e sh ".into()), &words(&["kitty"])),
        words(&["foot", "-e", "sh"])
    );
    assert_eq!(browser_command(None, &words(&["epiphany"])), words(&["epiphany"]));
    assert_eq!(browser_command(None, &vec![]), words(&["xdg-open", "https://github.com"]));
    assert_eq!(browser_name(None, &words(&["chromium"])), "chromium");
    assert_eq!(browser_name(Some("  ".into()), &vec![]), "browser");
    assert_eq!(effective_command("  ", words(&["foot"])), words(&["foot"]));
    assert_eq!(effective_command(" kitty -1 ", words(&["foot"])), words(&["kitty", "-1"]));
    assert_eq!(browser_label("", words(&["firefox"])), "firefox");
    assert_eq!(browser_label("brave --x", words(&["firefox"])), "brave");
    assert_eq!(split_command("a\t b\u{3000}c"), words(&["a", "b", "c"]));
}

fn env(x_display: Option<u32>) -> SpawnEnv {
    SpawnEnv { wayland_display: "wayland-1".into(), runtime_dir: "/run/x".into(), x_display }
}

#[test]
fn a_launch_carries_the_clients_environment() {
    let l = spawn(&words(&["firefox", "url"]), &env(Some(7)), Some("/w".into()), None).unwrap();
    assert_eq!(l.program, "firefox");
    assert_eq!(l.args, words(&["url", "--new-instance"]));
    assert_eq!(l.cwd.as_deref(), Some("/w"));
    let vars: Vec<(&str, Option<&str>)> =
        l.env.iter().map(|e| (e.name.as_str(), e.value.as_deref())).collect();
    assert_eq!(
        vars,
        vec![
            ("WAYLAND_DISPLAY", Some("wayland-1")),
            ("XDG_RUNTIME_DIR", Some("/run/x")),
            ("GDK_BACKEND", Some("wayland")),
            ("QT_QPA_PLATFORM", Some("wayland")),
            ("MOZ_ENABLE_WAYLAND", Some("1")),
            ("DISPLAY", Some(":7")),
        ]
    );
    let l = spawn(&words(&["foot"]), &env(None), None, None).unwrap();
    assert_eq!(l.env[5].value.as_deref(), Some(""));
    assert_eq!((l.env[6].name.as_str(), &l.env[6].value), ("XAUTHORITY", &None));
    assert_eq!(args_of(&words(&["a", "b"])), words(&["b"]));
}

#[test]
fn launches_fail_with_a_text() {
    assert_eq!(spawn(&vec![], &env(None), None, None), Err("empty command".to_string()));
    assert_eq!(launch_failure("foot", "not found"), "failed to launch foot: not found");
    assert_eq!(
        launch_client(&words(&["foot"]), &SpawnEnv::default(), None, None),
        LaunchStep::NotReady
    );
    assert_eq!(
        launch_client(&vec![], &env(None), None, None),
        LaunchStep::Failed("empty command".into())
    );
    assert!(matches!(
        launch_client(&words(&["foot"]), &env(None), None, None),
        LaunchStep::Run(_)
    ));
}

#[test]
fn colours_are_parsed() {
    assert_eq!(parse_hex_color("#89b4fa"), Some(Rgb { r: 0x89, g: 0xb4, b: 0xfa }));
    assert_eq!(parse_hex_color("89B4FA"), Some(Rgb { r: 0x89, g: 0xb4, b: 0xfa }));
    for bad in
        ["", "#", "#12345", "#1234567", "#12345g", "#-12345", "+00ff0", "#+12345", "##12345", "ééé"]
    {
        assert_eq!(parse_hex_color(bad), None);
    }
    // Without a colour of its own, the position decides.
    assert_eq!(task_tint("", 0), Rgb { r: 0x89, g: 0xb4, b: 0xfa });
    assert_eq!(task_tint("", 9), Rgb { r: 0xa6, g: 0xe3, b: 0xa1 });
    assert_eq!(task_tint("#010203", 9), Rgb { r: 1, g: 2, b: 3 });
    // So it does for a malformed one.
    assert_eq!(task_tint("#+12345", 9), Rgb { r: 0xa6, g: 0xe3, b: 0xa1 });
}

#[test]
fn the_socket_search_walks_names_and_directories() {
    let mut b = Binder::new(Some("/run/user/1000".into()), "/tmp", 1000);
    assert_eq!(
        b.action(),
        BindAction::Bind {
            dir: "/run/user/1000".into(),
            name: "wayland-1".into(),
            path: "/run/user/1000/wayland-1".into(),
        }
    );
    b.report(BindOutcome::AlreadyInUse);
    assert!(matches!(b.action(), BindAction::Bind { name, .. } if name == "wayland-2"));
    b.report(BindOutcome::BindFailed("denied".into()));
    // The private directory is created first.
    assert_eq!(b.action(), BindAction::Create("/tmp/focuswm-1000".into()));
    b.report(BindOutcome::Created);
    for n in 1..33 {
        assert!(
            matches!(b.action(), BindAction::Bind { name, .. } if name == format!("wayland-{n}"))
        );
        b.report(BindOutcome::AlreadyInUse);
    }
    assert_eq!(
        b.action(),
        BindAction::Fail(
            "no writable runtime directory for the wayland socket (/run/user/1000: denied)".into()
        )
    );
}

#[test]
fn the_socket_search_gives_up() {
    // A relative runtime directory is not used.
    let mut b = Binder::new(Some("run".into()), "/tmp/", 0);
    assert_eq!(b.action(), BindAction::Create("/tmp/focuswm-0".into()));
    b.report(BindOutcome::CreateFailed("full".into()));
    assert_eq!(
        b.action(),
        BindAction::Fail(
            "no writable runtime directory for the wayland socket (create /tmp/focuswm-0: full)"
                .into()
        )
    );
    let mut b = Binder::new(None, "/tmp", 0);
    b.report(BindOutcome::Created);
    for _ in 1..33 {
        b.report(BindOutcome::AlreadyInUse);
    }
    assert_eq!(
        b.action(),
        BindAction::Fail(
            "no writable runtime directory for the wayland socket (unknown)".into()
        )
    );
    // The private directory is recognised under another spelling.
    let b = Binder::new(Some("/tmp//focuswm-5/".into()), "/tmp", 5);
    assert_eq!(b.action(), BindAction::Create("/tmp//focuswm-5/".into()));
}
