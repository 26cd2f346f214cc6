use command_center::apps::{application_dirs, collect_apps, parse_desktop_entry};
use command_center::auth::{generate_new_token, is_authorized, pairing_url, random_token};
use command_center::commands::{
    bluetooth_power_command, check_workspace_switch, control_audio, control_bluetooth,
    control_brightness, control_media, control_system, control_workspace, execute_command,
    reading_command, switch_theme, CommandLine, ControlError, Reading,
};
use command_center::config::default_config;
use command_center::media::{
    art_mime, first_existing, get_media_metadata, icon_mime, media_art_source, player_entry,
    player_metadata_command, player_names, resolve_icon_path, stremio_entry, ArtSource,
    IconLookup, BLANK_SVG,
};
use command_center::models::{AppState, ModuleConfig, Notification, SystemApp};
use command_center::notifications::{MonitorReader, NotificationLog, MAX_NOTIFICATIONS};
use command_center::numbers::{decimal_i32, decimal_u32, parse_unsigned_chars};
use command_center::readings::{
    active_workspace, battery_level, bluetooth_powered, connected_device,
    decode_command_output, get_system_state, get_telemetry, parse_active_workspace,
    parse_audio_output, parse_brightness_output, parse_workspaces, sort_ids, wifi_name,
    workspace_list, ReadError,
};
use command_center::text::{
    chars_of, join_text, replace_text, text_contains, text_ends_with, text_starts_with, trimmed,
};

fn cmd(program: &str, args: &[&str]) -> CommandLine {
    CommandLine {
        program: program.to_string(),
        args: args.iter().map(|a| a.to_string()).collect(),
    }
}

fn note(id: &str) -> Notification {
    Notification {
        id: id.to_string(),
        app_name: format!("app-{}", id),
        summary: "s".to_string(),
        body: "b".to_string(),
    }
}

#[test]
fn trim_removes_unicode_white_space() {
    assert_eq!(trimmed("  \t hello world \n"), "hello world");
    assert_eq!(trimmed("\u{3000}x\u{a0}"), "x");
    assert_eq!(trimmed("   "), "");
    let once = trimmed("  a  ");
    assert_eq!(trimmed(&once), once);
}

#[test]
fn replace_matches_std() {
    for (s, p, r) in [
        ("Volume: 0.40 [MUTED]", "[MUTED]", ""),
        ("aaaa", "aa", "b"),
        ("a%20b%20c", "%20", " "),
        ("none here", "zz", "y"),
        ("\\n<b>x</b>", "\\n", "\n"),
    ] {
        assert_eq!(replace_text(s, p, r), s.replace(p, r));
    }
}

#[test]
fn text_predicates() {
    assert!(text_starts_with("file:///x", "file://"));
    assert!(!text_starts_with("fil", "file://"));
    assert!(text_ends_with("a.svg", ".svg"));
    assert!(text_contains("Powered: yes", "Powered: yes"));
    assert!(!text_contains("Powered: no", "Powered: yes"));
    assert_eq!(join_text("ab", "cd"), "abcd");
    assert_eq!(chars_of("héllo"), vec!['h', 'é', 'l', 'l', 'o']);
}

#[test]
fn decimal_rendering() {
    let s: String = decimal_u32(0).into_iter().collect();
    assert_eq!(s, "0");
    let s: String = decimal_u32(4294967295).into_iter().collect();
    assert_eq!(s, "4294967295");
    let s: String = decimal_i32(-2147483648).into_iter().collect();
    assert_eq!(s, "-2147483648");
    let s: String = decimal_i32(42).into_iter().collect();
    assert_eq!(s, "42");
}

#[test]
fn unsigned_parsing_matches_std() {
    for s in ["0", "42", "+7", "007", "", "+", "-1", "4294967295", "4294967296", "1a", " 1"] {
        let cs: Vec<char> = s.chars().collect();
        assert_eq!(parse_unsigned_chars(&cs, u32::MAX), s.parse::<u32>().ok(), "{:?}", s);
        let small = parse_unsigned_chars(&cs, 255);
        assert_eq!(small, s.parse::<u8>().ok().map(u32::from), "{:?}", s);
    }
}

#[test]
fn parse_reads_back_decimal() {
    for n in [0u32, 9, 10, 99, 100, 65535, 4294967295] {
        let digits = decimal_u32(n);
        assert_eq!(parse_unsigned_chars(&digits, u32::MAX), Some(n));
    }
}

#[test]
fn history_keeps_newest_twenty() {
    let mut log = NotificationLog::new();
    for i in 0..25 {
        log.record(note(&i.to_string()));
    }
    assert_eq!(log.len(), MAX_NOTIFICATIONS);
    let snap = log.snapshot();
    assert_eq!(snap[0].id, "24");
    assert_eq!(snap[19].id, "5");
}

#[test]
fn history_below_limit_keeps_all() {
    let mut log = NotificationLog::new();
    log.record(note("a"));
    log.record(note("b"));
    let ids: Vec<String> = log.snapshot().into_iter().map(|n| n.id).collect();
    assert_eq!(ids, vec!["b", "a"]);
}

#[test]
fn recorded_notification_gets_random_id() {
    let mut log = NotificationLog::new();
    log.record_notification("app".to_string(), "sum".to_string(), "body".to_string());
    let snap = log.snapshot();
    assert_eq!(snap.len(), 1);
    assert_eq!(snap[0].id.len(), 8);
    assert!(snap[0].id.chars().all(|c| c.is_ascii_alphanumeric()));
    assert_eq!(snap[0].app_name, "app");
    assert_eq!(snap[0].summary, "sum");
    assert_eq!(snap[0].body, "body");
}

#[test]
fn clear_one_removes_only_that_id() {
    let mut log = NotificationLog::new();
    log.record(note("x"));
    log.record(note("y"));
    log.record(note("x"));
    let r = log.apply_action("clear_one", Some("x"));
    assert!(r.is_none());
    let ids: Vec<String> = log.snapshot().into_iter().map(|n| n.id).collect();
    assert_eq!(ids, vec!["y"]);
    log.apply_action("clear_one", Some("absent"));
    assert_eq!(log.len(), 1);
    log.apply_action("clear_one", None);
    assert_eq!(log.len(), 1);
    log.apply_action("other", Some("y"));
    assert_eq!(log.len(), 1);
}

#[test]
fn clear_empties_and_clears_daemon() {
    let mut log = NotificationLog::new();
    log.record(note("x"));
    let r = log.apply_action("clear", None);
    assert_eq!(r, Some(cmd("swaync-client", &["-C"])));
    assert_eq!(log.len(), 0);
}

#[test]
fn monitor_emits_on_fourth_string() {
    let mut reader = MonitorReader::new();
    let lines = [
        "method call time=1 sender=:1.2 -> destination=:1.3 serial=4 path=/org/freedesktop/Notifications; interface=org.freedesktop.Notifications; member=Notify",
        "   string \"Firefox\"",
        "   uint32 0",
        "   string \"firefox\"",
        "   string \"<b>Download</b> done\"",
        "   string \"file.zip\\nsaved <i>here</i>\"",
        "   string \"ignored\"",
    ];
    let mut out = Vec::new();
    for l in lines {
        if let Some(n) = reader.feed_line(l) {
            out.push(n);
        }
    }
    assert_eq!(
        out,
        vec![(
            "Firefox".to_string(),
            "Download done".to_string(),
            "file.zip\nsaved here".to_string()
        )]
    );
}

#[test]
fn monitor_restarts_on_method_call() {
    let mut reader = MonitorReader::new();
    assert!(reader.feed_line("string \"a\"").is_none());
    assert!(reader.feed_line("method call").is_none());
    assert!(reader.feed_line("string \"app\"").is_none());
    assert!(reader.feed_line("string \"icon\"").is_none());
    assert!(reader.feed_line("string \"sum\"").is_none());
    assert_eq!(
        reader.feed_line("string \"body\""),
        Some(("app".to_string(), "sum".to_string(), "body".to_string()))
    );
    assert!(reader.feed_line("string \"").is_none());
}

#[test]
fn tokens_are_alphanumeric() {
    let t = generate_new_token();
    assert_eq!(t.len(), 64);
    assert!(t.chars().all(|c| c.is_ascii_alphanumeric()));
    assert_eq!(random_token(0), "");
}

#[test]
fn authorization_needs_exact_bearer() {
    let token = "abc123";
    assert!(is_authorized(Some(b"Bearer abc123"), token));
    assert!(!is_authorized(Some(b"Bearer abc1234"), token));
    assert!(!is_authorized(Some(b"bearer abc123"), token));
    assert!(!is_authorized(Some(b"abc123"), token));
    assert!(!is_authorized(None, token));
    let state = AppState::new(token.to_string());
    assert!(state.authorize(Some(b"Bearer abc123")));
    assert!(!state.authorize(Some(b"Bearer other")));
    assert_eq!(state.notifications.len(), 0);
}

#[test]
fn pairing_url_format() {
    assert_eq!(pairing_url("192.168.1.5", 3000, "tok"), "http://192.168.1.5:3000/?token=tok");
}

#[test]
fn audio_commands() {
    assert_eq!(
        control_audio("set", Some(55)),
        Some(cmd("wpctl", &["set-volume", "@DEFAULT_AUDIO_SINK@", "55%"]))
    );
    assert_eq!(
        control_audio("mute", Some(3)),
        Some(cmd("wpctl", &["set-mute", "@DEFAULT_AUDIO_SINK@", "toggle"]))
    );
    assert_eq!(control_audio("set", None), None);
    assert_eq!(control_audio("louder", Some(1)), None);
}

#[test]
fn brightness_commands() {
    assert_eq!(control_brightness("set", Some(0)), Some(cmd("brightnessctl", &["set", "0%"])));
    assert_eq!(control_brightness("set", None), None);
    assert_eq!(control_brightness("up", Some(4)), None);
}

#[test]
fn workspace_commands() {
    assert_eq!(
        control_workspace(3),
        cmd("hyprctl", &["dispatch", "hl.dsp.focus({ workspace = \"3\" })"])
    );
    assert_eq!(
        control_workspace(-12),
        cmd("hyprctl", &["dispatch", "hl.dsp.focus({ workspace = \"-12\" })"])
    );
    assert_eq!(check_workspace_switch(true), Ok(()));
    assert_eq!(check_workspace_switch(false), Err(ControlError::WorkspaceSwitchFailed));
}

#[test]
fn media_system_theme_commands() {
    assert_eq!(control_media("play-pause", None), cmd("playerctl", &["play-pause"]));
    assert_eq!(
        control_media("next", Some("spotify".to_string())),
        cmd("playerctl", &["-p", "spotify", "next"])
    );
    assert_eq!(control_system("lock"), Some(cmd("hyprlock", &[])));
    assert_eq!(control_system("reboot"), None);
    assert_eq!(
        switch_theme("nord", Some("/home/u")),
        Ok(cmd("/home/u/.config/hypr/scripts/switch_theme.sh", &["nord"]))
    );
    assert_eq!(switch_theme("nord", None), Err(ControlError::MissingHome));
    assert_eq!(execute_command("echo hi"), cmd("sh", &["-c", "echo hi"]));
}

#[test]
fn bluetooth_toggle_flips_power() {
    assert_eq!(control_bluetooth("toggle"), Some(cmd("bluetoothctl", &["show"])));
    assert_eq!(control_bluetooth("scan"), None);
    let on = b"Controller 00:11 (public)\n\tName: host\n\tPowered: yes\n\tDiscoverable: no\n";
    assert_eq!(bluetooth_power_command(on), cmd("bluetoothctl", &["power", "off"]));
    let on_true = b"\tPowered: TRUE\n";
    assert_eq!(bluetooth_power_command(on_true), cmd("bluetoothctl", &["power", "off"]));
    let off = b"Controller 00:11\n\tPowered: no\n\tPowered: yes\n";
    assert_eq!(bluetooth_power_command(off), cmd("bluetoothctl", &["power", "on"]));
    assert_eq!(bluetooth_power_command(b""), cmd("bluetoothctl", &["power", "on"]));
}

#[test]
fn reading_commands() {
    assert_eq!(
        reading_command(Reading::Volume),
        cmd("wpctl", &["get-volume", "@DEFAULT_AUDIO_SINK@"])
    );
    assert_eq!(reading_command(Reading::Brightness), cmd("brightnessctl", &["-m"]));
    assert_eq!(reading_command(Reading::Workspaces), cmd("hyprctl", &["workspaces", "-j"]));
    assert_eq!(reading_command(Reading::Players), cmd("playerctl", &["-l"]));
}

#[test]
fn audio_output_parsing() {
    let r = parse_audio_output("Volume: 0.45 [MUTED]\n");
    assert!(r.is_muted);
    assert_eq!(r.level_text, "0.45");
    let r = parse_audio_output("Volume: 1.00\n");
    assert!(!r.is_muted);
    assert_eq!(r.level_text, "1.00");
}

#[test]
fn brightness_output_parsing() {
    assert_eq!(parse_brightness_output("intel_backlight,backlight,19200,40%,48000\n"), 40);
    assert_eq!(parse_brightness_output("a,b,c"), 0);
    assert_eq!(parse_brightness_output("a,b,c,x%"), 0);
    assert_eq!(parse_brightness_output("a,b,c, 7% ,d"), 7);
}

#[test]
fn workspace_parsing() {
    assert_eq!(
        parse_workspaces("[{\"id\":3},{\"id\":1},{\"id\":\"x\"},{\"name\":\"a\"},{\"id\":2}]"),
        Ok(vec![1, 2, 3])
    );
    assert_eq!(parse_workspaces("{\"id\":3}"), Ok(vec![]));
    assert_eq!(parse_workspaces("not json"), Err(ReadError::NotJson));
    assert_eq!(parse_active_workspace("{\"id\":5,\"name\":\"5\"}"), Ok(5));
    assert_eq!(parse_active_workspace("{\"name\":\"x\"}"), Ok(1));
    assert_eq!(parse_active_workspace("{"), Err(ReadError::NotJson));
    assert_eq!(workspace_list(Some(vec![Some(4294967297), None, Some(-1)])), vec![-1, 1]);
    assert_eq!(workspace_list(None), Vec::<i32>::new());
    assert_eq!(active_workspace(None), 1);
    assert_eq!(sort_ids(vec![3, 1, 2, 1]), vec![1, 1, 2, 3]);
}

#[test]
fn output_decoding() {
    assert_eq!(decode_command_output(b"ok".to_vec()), Ok("ok".to_string()));
    assert_eq!(decode_command_output(vec![0xff, 0xfe]), Err(ReadError::NotUtf8));
}

#[test]
fn telemetry_readings() {
    assert_eq!(battery_level(Some("87\n".to_string()), Some("10".to_string())), 87);
    assert_eq!(battery_level(None, Some("10".to_string())), 10);
    assert_eq!(battery_level(None, None), 100);
    assert_eq!(battery_level(Some("300".to_string()), None), 100);
    assert_eq!(wifi_name(Some(b"HomeNet\n".to_vec())), "HomeNet");
    assert_eq!(wifi_name(Some(b"\n".to_vec())), "Disconnected");
    assert_eq!(wifi_name(None), "Unknown");
    assert!(bluetooth_powered(Some(b"\tPowered: yes\n".to_vec())));
    assert!(!bluetooth_powered(Some(b"\tPowered: no\n".to_vec())));
    assert!(!bluetooth_powered(None));
    assert_eq!(connected_device(Some(b"WH-1000XM4\n".to_vec())), "WH-1000XM4");
    assert_eq!(connected_device(Some(Vec::new())), "None");
    assert_eq!(connected_device(None), "None");
    let t = get_telemetry(None, None, None, None, None);
    assert_eq!(t, (100, "Unknown".to_string(), false, "None".to_string()));
}

#[test]
fn system_state_assembly() {
    let audio = parse_audio_output("Volume: 0.30\n");
    let st = get_system_state(
        &audio,
        30,
        "dev,backlight,1,25%,100",
        "[{\"id\":2},{\"id\":1}]",
        "{\"id\":2}",
        (90, "Net".to_string(), true, "None".to_string()),
        vec![note("n")],
    )
    .unwrap();
    assert_eq!(st.volume, 30);
    assert!(!st.is_muted);
    assert_eq!(st.brightness, 25);
    assert_eq!(st.workspaces, vec![1, 2]);
    assert_eq!(st.active_workspace, 2);
    assert_eq!(st.battery, 90);
    assert_eq!(st.notifications.len(), 1);
    let bad = get_system_state(&audio, 0, "", "oops", "{}", (0, String::new(), false, String::new()), vec![]);
    assert_eq!(bad, Err(ReadError::NotJson));
}

#[test]
fn desktop_entry_parsing() {
    let entry = "[Desktop Entry]\nName=Files\nName=Other\nExec=nautilus --new-window %U\nIcon=org.gnome.Nautilus\r\n";
    assert_eq!(
        parse_desktop_entry(entry),
        Some(SystemApp {
            name: "Files".to_string(),
            command: "nautilus".to_string(),
            icon: "org.gnome.Nautilus".to_string(),
        })
    );
    assert_eq!(parse_desktop_entry("Name=Hidden\nExec=x\nNoDisplay=true\n"), None);
    assert_eq!(parse_desktop_entry("Name=NoExec\n"), None);
    assert_eq!(
        parse_desktop_entry("Exec=   \nExec=  run  now\nName=R"),
        Some(SystemApp { name: "R".to_string(), command: "run".to_string(), icon: String::new() })
    );
}

#[test]
fn catalogue_sorted_and_deduplicated() {
    let contents = vec![
        "Name=Zed\nExec=zed".to_string(),
        "Name=Alpha\nExec=alpha-first".to_string(),
        "Name=Hidden\nExec=h\nNoDisplay=true".to_string(),
        "Name=Alpha\nExec=alpha-second".to_string(),
        "Name=alpha\nExec=lower".to_string(),
        "garbage".to_string(),
    ];
    let apps = collect_apps(&contents);
    let names: Vec<&str> = apps.iter().map(|a| a.name.as_str()).collect();
    assert_eq!(names, vec!["Alpha", "Zed", "alpha"]);
    assert_eq!(apps[0].command, "alpha-first");
}

#[test]
fn application_directories() {
    assert_eq!(
        application_dirs(Some("/home/u")),
        vec![
            "/usr/share/applications".to_string(),
            "/var/lib/flatpak/exports/share/applications".to_string(),
            "/home/u/.local/share/applications".to_string(),
        ]
    );
    assert_eq!(application_dirs(None).len(), 2);
}

#[test]
fn icon_lookup() {
    assert_eq!(resolve_icon_path("/abs/icon.png", None), IconLookup::Found("/abs/icon.png".to_string()));
    match resolve_icon_path("firefox", Some("/home/u")) {
        IconLookup::Probe(ps) => {
            assert_eq!(ps.len(), 13);
            assert_eq!(ps[0], "/usr/share/icons/hicolor/scalable/apps/firefox.svg");
            assert_eq!(ps[12], "/home/u/.local/share/icons/hicolor/64x64/apps/firefox.png");
        }
        other => panic!("unexpected {:?}", other),
    }
    match resolve_icon_path("firefox", None) {
        IconLookup::Probe(ps) => assert_eq!(ps.len(), 10),
        other => panic!("unexpected {:?}", other),
    }
    let ps = vec!["a".to_string(), "b".to_string(), "c".to_string()];
    assert_eq!(first_existing(&ps, &vec![false, true, true]), Some("b".to_string()));
    assert_eq!(first_existing(&ps, &vec![false, false, false]), None);
    assert_eq!(first_existing(&ps, &vec![false]), None);
    assert_eq!(icon_mime("/x/y.svg"), "image/svg+xml");
    assert_eq!(icon_mime("/x/y.png"), "image/png");
    assert!(BLANK_SVG.starts_with("<svg"));
}

#[test]
fn media_art_sources() {
    assert_eq!(
        media_art_source("file://file:///tmp/My%20Art.PNG"),
        ArtSource::File("/tmp/My Art.PNG".to_string())
    );
    assert_eq!(
        media_art_source("https://i.scdn.co/x"),
        ArtSource::Redirect("https://i.scdn.co/x".to_string())
    );
    assert_eq!(media_art_source("data:xyz"), ArtSource::Blank);
    assert_eq!(art_mime("/tmp/A.PNG"), "image/png");
    assert_eq!(art_mime("/tmp/a.Svg"), "image/svg+xml");
    assert_eq!(art_mime("/tmp/a.jpg"), "image/jpeg");
}

#[test]
fn player_metadata() {
    assert_eq!(player_names(b"spotify\n\n  firefox.instance2  \n"), vec!["spotify", "firefox.instance2"]);
    assert_eq!(
        player_metadata_command("spotify"),
        cmd(
            "playerctl",
            &[
                "-p",
                "spotify",
                "metadata",
                "--format",
                "{{title}}|~|{{artist}}|~|{{mpris:artUrl}}|~|{{status}}"
            ]
        )
    );
    let m = player_entry("spotify", b"Song |~| Band|~|https://art|~|Playing\n").unwrap();
    assert_eq!(m.title, "Song");
    assert_eq!(m.artist, "Band");
    assert_eq!(m.art_url, "https://art");
    assert_eq!(m.status, "Playing");
    let m = player_entry("mpv", b"|~||~||~|Paused").unwrap();
    assert_eq!(m.title, "Unknown Media");
    assert_eq!(m.status, "Paused");
    assert_eq!(player_entry("mpv", b"|~|a|~|b|~|Stopped"), None);
    assert_eq!(player_entry("mpv", b"   \n"), None);
    let m = player_entry("x", b"Only title").unwrap();
    assert_eq!(m.artist, "Unknown");
    assert_eq!(m.art_url, "");
    assert_eq!(m.status, "Stopped");
    let s = stremio_entry("Movie", true);
    assert_eq!(s.player_name, "Stremio Native");
    assert_eq!(s.status, "Playing");
    assert_eq!(stremio_entry("Movie", false).status, "Paused");
    let all = get_media_metadata(
        &vec![
            ("spotify".to_string(), Some(b"Song|~|Band|~||~|Playing".to_vec())),
            ("dead".to_string(), None),
            ("idle".to_string(), Some(b"".to_vec())),
        ],
        Some(("Stream".to_string(), false)),
    );
    assert_eq!(all.len(), 2);
    assert_eq!(all[0].player_name, "spotify");
    assert_eq!(all[1].title, "Stream");
}

#[test]
fn default_layout() {
    let c = default_config();
    assert_eq!(c.general.theme, "glass");
    assert_eq!(c.layout.len(), 6);
    assert_eq!(c.layout[0], ModuleConfig::Telemetry {});
    assert_eq!(
        c.layout[4],
        ModuleConfig::Slider {
            endpoint: "brightness".to_string(),
            label: "Display Brightness".to_string(),
            color: "bg-yellow-400".to_string(),
        }
    );
    assert_eq!(c.layout[5], ModuleConfig::MediaSystem {});
}
