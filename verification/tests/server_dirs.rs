use fastmc::dir::{JavaProcess, ServerDir};
use fastmc::paths::{file_name_of, server_name};
use fastmc::rcon::{broadcast_route, rcon_available, rcon_packet, rcon_request, BroadcastRoute};
use fastmc::server::{
    configure_rcon, delete_allowed, force_stop_confirmed, rename_allowed, get_server_pid, hex_of, start_plan, StartPlan, generate_rcon_password, lists_as_server, rcon_properties,
    recovery_start_script, resized_start_script, server_menu, server_running, server_state,
    session_name, shell_quote, skipped_without_worlds, start_script, start_step, tmux_start_command,
    world_incomplete, ServerOption, StartStep,
};

fn dir_with(jars: usize, meta: bool, conf: bool, script: bool) -> ServerDir {
    ServerDir {
        path: "/srv/mc/lobby".to_string(),
        meta_dir_exists: meta,
        meta: Vec::new(),
        conf_exists: conf,
        conf: None,
        properties: None,
        start_script_exists: script,
        start_script: None,
        jar_count: jars,
        canonical_path: None,
        java_processes: Vec::new(),
    }
}

fn java(pid: &str, comm: &str, cmdline: Option<&str>) -> JavaProcess {
    JavaProcess {
        pid_text: pid.to_string(),
        comm: comm.to_string(),
        cmdline: cmdline.map(|c| c.to_string()),
        cwd: None,
    }
}

fn java_in(pid: &str, cwd: &str) -> JavaProcess {
    JavaProcess {
        pid_text: pid.to_string(),
        comm: "java\n".to_string(),
        cmdline: Some("java\0-Xmx4096m\0-jar\0server.jar\0nogui\0".to_string()),
        cwd: Some(cwd.to_string()),
    }
}

/// An RCON packet as the protocol frames it.
fn packet(id: u32, ptype: u32, body: &str) -> Vec<u8> {
    let len = (4 + 4 + body.len() + 2) as u32;
    let mut p = Vec::new();
    p.extend_from_slice(&len.to_le_bytes());
    p.extend_from_slice(&id.to_le_bytes());
    p.extend_from_slice(&ptype.to_le_bytes());
    p.extend_from_slice(body.as_bytes());
    p.extend_from_slice(&[0, 0]);
    p
}

#[test]
fn states_follow_jars_and_files() {
    assert_eq!(server_state(&dir_with(0, false, false, false)), "empty");
    assert_eq!(server_state(&dir_with(0, true, false, false)), "broken");
    assert_eq!(server_state(&dir_with(0, false, true, true)), "broken");
    assert_eq!(server_state(&dir_with(1, true, false, true)), "initialized");
    assert_eq!(server_state(&dir_with(2, true, false, false)), "fresh");
    assert_eq!(server_state(&dir_with(1, false, true, true)), "fresh");
}

#[test]
fn file_names_match_path_file_name() {
    let samples = [
        "/srv/mc/lobby", "/srv/mc/lobby/", "lobby", "/srv/mc/lobby/.", "/", "", ".", "..",
        "/srv/..", "a//b//", "./x", "/a/b.c", "a/./", "/a/.b", "x/..y",
    ];
    for s in samples {
        let expected = std::path::Path::new(s).file_name().map(|n| n.to_string_lossy().to_string());
        assert_eq!(file_name_of(s), expected, "path {:?}", s);
    }
    assert_eq!(server_name("/home/a/.local/share/fastmc/survival"), "survival");
}

#[test]
fn session_names_replace_dots_and_spaces() {
    assert_eq!(session_name("/srv/my server.v2"), "mcserver-my_server_v2");
    assert_eq!(session_name("/srv/lobby/"), "mcserver-lobby");
    for d in ["/srv/a.b c", "/x/plain", "/x/ü.ü"] {
        let name = std::path::Path::new(d).file_name().unwrap().to_string_lossy().to_string();
        assert_eq!(session_name(d), format!("mcserver-{}", name.replace(&['.', ' '], "_")));
    }
}

#[test]
fn the_running_server_is_found_among_java_processes() {
    let mut d = dir_with(1, true, false, true);
    d.canonical_path = Some("/srv/mc/lobby".to_string());
    d.java_processes.push(java("100", "bash\n", Some("java -jar server.jar")));
    d.java_processes.push(java("abc", "java\n", Some("/srv/mc/lobby")));
    d.java_processes.push(java("200", "java\n", None));
    d.java_processes.push(java("300", "java\n", Some("java\0-Xmx2G\0-jar\0other.jar\0/srv/mc/lobby")));
    d.java_processes.push(java("400", "java\n", Some("java\0-jar\0server.jar")));
    assert_eq!(get_server_pid(&d), Some(300));
    assert!(server_running(&d));
}

#[test]
fn other_servers_do_not_make_a_directory_run() {
    let mut d = dir_with(1, true, false, true);
    d.canonical_path = Some("/srv/mc/lobby".to_string());
    d.java_processes.push(java_in("55", "/srv/mc/survival"));
    d.java_processes.push(java("56", "java", Some("java\0-jar\0server.jar\0nogui")));
    assert_eq!(get_server_pid(&d), None);
    assert!(!server_running(&d));
    d.java_processes.push(java_in("57", "/srv/mc/lobby"));
    assert_eq!(get_server_pid(&d), Some(57));
    assert!(server_running(&d));
}

#[test]
fn no_canonical_path_means_not_running() {
    let mut d = dir_with(1, true, false, true);
    d.java_processes.push(java_in("55", "/srv/mc/lobby"));
    assert_eq!(get_server_pid(&d), None);
    assert!(!server_running(&d));
}

#[test]
fn the_menu_follows_state_and_running() {
    let fresh = dir_with(1, false, false, false);
    assert_eq!(server_menu(&fresh), vec![ServerOption::FirstTimeSetup, ServerOption::EditNotes, ServerOption::Rename, ServerOption::Delete, ServerOption::Back]);
    let broken = dir_with(0, true, false, false);
    assert_eq!(server_menu(&broken), vec![ServerOption::Recover, ServerOption::EditNotes, ServerOption::Rename, ServerOption::Delete, ServerOption::Back]);
    let empty = dir_with(0, false, false, false);
    assert_eq!(server_menu(&empty), vec![ServerOption::EditNotes, ServerOption::Rename, ServerOption::Delete, ServerOption::Back]);
    let stopped = dir_with(1, true, false, true);
    assert_eq!(
        server_menu(&stopped),
        vec![ServerOption::Start, ServerOption::Backup, ServerOption::RestoreBackup, ServerOption::ScheduleBackups, ServerOption::ManageWhitelist, ServerOption::ChangeRam, ServerOption::Duplicate, ServerOption::EditNotes, ServerOption::Rename, ServerOption::Delete, ServerOption::Back]
    );
    let mut running = dir_with(1, true, false, true);
    running.canonical_path = Some("/srv/mc/lobby".to_string());
    running.java_processes.push(java_in("9", "/srv/mc/lobby"));
    assert_eq!(
        server_menu(&running),
        vec![
            ServerOption::Attach, ServerOption::ViewConsole, ServerOption::ResourceMonitor, ServerOption::StopGracefully, ServerOption::ForceStop, ServerOption::Backup, ServerOption::RestoreBackup, ServerOption::ScheduleBackups,
            ServerOption::ManageWhitelist, ServerOption::ChangeRam, ServerOption::Duplicate, ServerOption::EditNotes, ServerOption::Rename, ServerOption::Delete, ServerOption::Back
        ]
    );
}

#[test]
fn start_scripts_have_the_expected_text() {
    let flags = "-Xmx4096m -Xms4096m -XX:MaxMetaspaceSize=491m -XX:MaxDirectMemorySize=48m -Xss256k";
    let expected = format!(
        r#"#!/usr/bin/env bash
# fastmc — start script for {}
cd "$(dirname "$0")"
ulimit -c 0
ulimit -n 8192
exec java {} -jar server.jar nogui
"#,
        "lobby", flags
    );
    assert_eq!(start_script("lobby", flags), expected);
    let resized = format!(
        r#"#!/usr/bin/env bash
cd "$(dirname "$0")"
ulimit -c 0
ulimit -n 8192
exec java {} -jar server.jar nogui
"#,
        flags
    );
    assert_eq!(resized_start_script(flags), resized);
    assert_eq!(
        recovery_start_script(),
        "#!/usr/bin/env bash\ncd \"$(dirname \"$0\")\"\nexec java -Xmx2G -Xms2G -jar server.jar nogui\n"
    );
}

#[test]
fn tmux_commands_quote_the_directory() {
    let dir = "/srv/it's here";
    let expected = format!(
        "tmux new-session -d -s {} -c '{}' {} supervisor '{}'",
        "mcserver-it's_here",
        dir.replace("'", "'\\''"),
        "/usr/bin/fastmc",
        dir.replace("'", "'\\''")
    );
    assert_eq!(tmux_start_command("mcserver-it's_here", dir, "/usr/bin/fastmc"), expected);
    let q: String = shell_quote("a'b''c").into_iter().collect();
    assert_eq!(q, "a'\\''b'\\'''\\''c");
}

#[test]
fn listing_skips_backups_and_logs() {
    assert!(lists_as_server("lobby", true, 1, false, false));
    assert!(lists_as_server("lobby", true, 0, true, false));
    assert!(lists_as_server("lobby", true, 0, false, true));
    assert!(!lists_as_server("lobby", true, 0, false, false));
    assert!(!lists_as_server("lobby", false, 3, true, true));
    assert!(!lists_as_server("backups", true, 1, true, true));
    assert!(!lists_as_server("LOGS", true, 1, true, true));
    assert!(lists_as_server("logs", true, 1, false, false));
}

#[test]
fn copies_without_worlds_skip_world_folders_and_logs() {
    for n in ["world", "world_nether", "world_the_end", "logs"] {
        assert!(skipped_without_worlds(n));
    }
    for n in ["World", "plugins", "server.jar", "world2", ""] {
        assert!(!skipped_without_worlds(n));
    }
}

#[test]
fn incomplete_worlds_lack_generation_settings() {
    assert!(world_incomplete(true, true, false));
    assert!(!world_incomplete(true, true, true));
    assert!(!world_incomplete(true, false, false));
    assert!(!world_incomplete(false, true, false));
}

#[test]
fn hex_matches_two_digit_formatting() {
    let bytes: Vec<u8> = vec![0, 1, 15, 16, 127, 128, 171, 255];
    let expected: String = bytes.iter().map(|b| format!("{:02x}", b)).collect();
    assert_eq!(hex_of(&bytes), expected);
    assert_eq!(hex_of(&[]), "");
}

#[test]
fn generated_passwords_are_32_hex_digits() {
    let a = generate_rcon_password();
    let b = generate_rcon_password();
    assert_eq!(a.len(), 32);
    assert!(a.chars().all(|c| c.is_ascii_hexdigit() && !c.is_ascii_uppercase()));
    assert_eq!(b.len(), 32);
    assert_ne!(a, b);
}

#[test]
fn rcon_properties_replace_the_rcon_lines() {
    let content = "motd=hi\nenable-rcon=false\nrcon.port=1\nrcon.password=x\npvp=true\n";
    assert_eq!(
        rcon_properties(content, "abc"),
        "motd=hi\npvp=true\nenable-rcon=true\nrcon.port=25575\nrcon.password=abc\n"
    );
    for c in ["", "a=1", "rcon.password.extra=1\nb=2\r\n", " enable-rcon=true\n"] {
        let mut lines: Vec<String> = c
            .lines()
            .filter(|l| {
                !l.starts_with("enable-rcon") && !l.starts_with("rcon.port") && !l.starts_with("rcon.password")
            })
            .map(|s| s.to_string())
            .collect();
        lines.push("enable-rcon=true".to_string());
        lines.push("rcon.port=25575".to_string());
        lines.push("rcon.password=pw".to_string());
        assert_eq!(rcon_properties(c, "pw"), format!("{}\n", lines.join("\n")), "content {:?}", c);
    }
}

#[test]
fn rcon_needs_password_and_port() {
    let mut d = dir_with(1, true, true, true);
    assert!(!rcon_available(&d));
    assert!(rcon_request(&d, "list").is_none());
    d.conf = Some("rcon_password=pw\n".to_string());
    assert!(!rcon_available(&d));
    d.conf = Some("rcon_password=pw\nrcon_port=25575\n".to_string());
    assert!(rcon_available(&d));
    let req = rcon_request(&d, "save-all").unwrap();
    assert_eq!(req.address, "127.0.0.1:25575");
    assert_eq!(req.login, packet(1, 3, "pw"));
    assert_eq!(req.command, packet(2, 2, "save-all"));
}

#[test]
fn rcon_packets_match_the_wire_format() {
    for (id, t, body) in [(1, 3, "pw"), (2, 2, "list"), (7, 2, ""), (1, 3, "pässwörd"), (2, 2, "say héllo")] {
        assert_eq!(rcon_packet(id, t, body), packet(id, t, body), "{} {} {:?}", id, t, body);
    }
    assert_eq!(rcon_packet(1, 3, "pw"), vec![12, 0, 0, 0, 1, 0, 0, 0, 3, 0, 0, 0, b'p', b'w', 0, 0]);
    assert_eq!(
        rcon_packet(2, 2, "list"),
        vec![14, 0, 0, 0, 2, 0, 0, 0, 2, 0, 0, 0, b'l', b'i', b's', b't', 0, 0]
    );
}

#[test]
fn starting_all_launches_only_stopped_initialized_servers() {
    assert_eq!(start_step(&dir_with(1, true, false, true)), StartStep::Launch);
    assert_eq!(start_step(&dir_with(1, false, false, true)), StartStep::Skip);
    assert_eq!(start_step(&dir_with(0, true, true, true)), StartStep::Skip);
    let mut running = dir_with(1, true, false, true);
    running.canonical_path = Some("/srv/mc/lobby".to_string());
    running.java_processes.push(java_in("9", "/srv/mc/lobby"));
    assert_eq!(start_step(&running), StartStep::AlreadyRunning);
}

#[test]
fn broadcasts_use_rcon_where_configured() {
    let mut d = dir_with(1, true, true, true);
    assert_eq!(broadcast_route(&d), BroadcastRoute::Tmux);
    d.conf = Some("rcon_password=pw\nrcon_port=25575\n".to_string());
    assert_eq!(broadcast_route(&d), BroadcastRoute::Rcon);
    d.conf = Some("rcon_port=25575\n".to_string());
    assert_eq!(broadcast_route(&d), BroadcastRoute::Tmux);
}

#[test]
fn rcon_setup_records_a_fresh_password_and_the_port() {
    let mut none = dir_with(1, true, false, true);
    assert!(configure_rcon(&mut none).is_none());
    assert!(none.conf.is_none());

    let mut d = dir_with(1, true, true, true);
    d.properties = Some("motd=hi\nenable-rcon=false\nrcon.password=old\n".to_string());
    d.conf = Some("rcon_password=old\nother=1\n".to_string());
    let s = configure_rcon(&mut d).unwrap();
    assert_eq!(s.password.len(), 32);
    assert!(s.password.chars().all(|c| c.is_ascii_hexdigit() && !c.is_ascii_uppercase()));
    assert_eq!(
        s.properties,
        format!("motd=hi\nenable-rcon=true\nrcon.port=25575\nrcon.password={}\n", s.password)
    );
    assert_eq!(s.conf, format!("other=1\nrcon_password={}\nrcon_port=25575\n", s.password));
    assert_eq!(d.properties, Some(s.properties.clone()));
    assert_eq!(d.conf, Some(s.conf.clone()));
    assert!(rcon_available(&d));
    let req = rcon_request(&d, "list").unwrap();
    assert_eq!(req.login, packet(1, 3, &s.password));
    assert_eq!(req.address, "127.0.0.1:25575");
}

#[test]
fn starting_from_the_menu_cleans_up_first() {
    let stopped = dir_with(1, true, false, true);
    assert_eq!(
        start_plan(&stopped, true, true, true, false),
        StartPlan::Launch { kill_session: true, remove_world: true }
    );
    assert_eq!(
        start_plan(&stopped, false, true, true, true),
        StartPlan::Launch { kill_session: false, remove_world: false }
    );
    let mut running = dir_with(1, true, false, true);
    running.canonical_path = Some("/srv/mc/lobby".to_string());
    running.java_processes.push(java_in("9", "/srv/mc/lobby"));
    assert_eq!(start_plan(&running, true, true, true, false), StartPlan::AlreadyRunning);
}

#[test]
fn destructive_actions_need_exact_confirmation() {
    assert!(force_stop_confirmed("yes"));
    assert!(!force_stop_confirmed("YES"));
    assert!(!force_stop_confirmed(" yes"));
    let stopped = dir_with(1, true, false, true);
    assert!(delete_allowed(&stopped, "lobby", "lobby", " YeS "));
    assert!(!delete_allowed(&stopped, "Lobby", "lobby", "yes"));
    assert!(!delete_allowed(&stopped, "lobby", "lobby", "no"));
    let mut running = dir_with(1, true, false, true);
    running.canonical_path = Some("/srv/mc/lobby".to_string());
    running.java_processes.push(java_in("9", "/srv/mc/lobby"));
    assert!(!delete_allowed(&running, "lobby", "lobby", "yes"));
    assert!(rename_allowed(&stopped, "new-name", false));
    assert!(!rename_allowed(&stopped, "new-name", true));
    assert!(!rename_allowed(&stopped, "", false));
    assert!(!rename_allowed(&running, "new-name", false));
}
