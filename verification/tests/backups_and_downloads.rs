use fastmc::backup::{
    archive_path, backup_command, backup_folder, backup_format, custom_backup_command,
    display_path, display_path_in, pause_autosave, replace_text, BackupFormat,
};
use fastmc::dir::{JavaProcess, ServerDir};
use fastmc::download::{
    dashed_uuid, download_url, profile_url, public_ip_from, software_for_choice, uuid_from_profile,
};
use std::path::{Path, PathBuf};

/// How the backup screen shows a path.
fn shown(path: &Path) -> String {
    let home = dirs::home_dir().unwrap_or_else(|| PathBuf::from("/"));
    if let Ok(stripped) = path.strip_prefix(home) {
        if stripped.as_os_str().is_empty() {
            return "~".to_string();
        }
        return format!("~/{}", stripped.display());
    }
    path.display().to_string()
}

fn running_dir(conf: Option<&str>) -> ServerDir {
    ServerDir {
        path: "/srv/a".to_string(),
        meta_dir_exists: true,
        meta: Vec::new(),
        conf_exists: conf.is_some(),
        conf: conf.map(|c| c.to_string()),
        properties: None,
        start_script_exists: true,
        start_script: None,
        jar_count: 1,
        canonical_path: Some("/srv/a".to_string()),
        java_processes: vec![JavaProcess {
            pid_text: "42".to_string(),
            comm: "java\n".to_string(),
            cmdline: Some("java\0-jar\0server.jar\0nogui\0".to_string()),
            cwd: Some("/srv/a".to_string()),
        }],
    }
}

#[test]
fn paths_are_shown_relative_to_home() {
    let home = dirs::home_dir().unwrap_or_else(|| PathBuf::from("/"));
    let samples = vec![
        home.clone(),
        home.join("servers/lobby"),
        home.join("a/"),
        PathBuf::from("/definitely/elsewhere"),
        PathBuf::from("relative/path"),
    ];
    for p in samples {
        let s = p.to_string_lossy().to_string();
        assert_eq!(display_path(&s), shown(&p), "path {:?}", s);
    }
}

#[test]
fn backup_menu_numbers_pick_formats() {
    assert_eq!(backup_format(1), Some(BackupFormat::Zip));
    assert_eq!(backup_format(2), Some(BackupFormat::Tar));
    assert_eq!(backup_format(3), Some(BackupFormat::TarGz));
    assert_eq!(backup_format(4), Some(BackupFormat::TarXz));
    assert_eq!(backup_format(5), Some(BackupFormat::Custom));
    assert_eq!(backup_format(6), None);
    assert_eq!(backup_format(0), None);
}

#[test]
fn archive_paths_keep_the_whole_name_and_stamp() {
    let folder = backup_folder("/home/a/.local/share/fastmc/backups", "lobby");
    assert_eq!(folder, "/home/a/.local/share/fastmc/backups/lobby");
    let stamp = "2024-05-01_10-20-1714558800";
    let formats = [
        (BackupFormat::Zip, "zip"),
        (BackupFormat::Tar, "tar"),
        (BackupFormat::TarGz, "tar.gz"),
        (BackupFormat::TarXz, "tar.xz"),
    ];
    for name in ["lobby", "my.server", ".hidden", "a.b.c"] {
        for (f, ext) in formats {
            let expected = Path::new(&folder)
                .join(format!("{}_{}.{}", name, stamp, ext))
                .to_string_lossy()
                .to_string();
            assert_eq!(archive_path(&folder, name, stamp, f), expected, "{:?} {:?}", name, f);
        }
    }
    assert_ne!(
        archive_path("/b", "my.server", stamp, BackupFormat::Zip),
        archive_path("/b", "my.server", "2024-05-01_10-20-1714558801", BackupFormat::Zip)
    );
    assert_eq!(
        archive_path("/b", "my.server", stamp, BackupFormat::Zip),
        "/b/my.server_2024-05-01_10-20-1714558800.zip"
    );
    assert_eq!(
        archive_path("/b", "lobby", stamp, BackupFormat::TarGz),
        "/b/lobby_2024-05-01_10-20-1714558800.tar.gz"
    );
}

#[test]
fn archive_commands_exclude_backups_and_logs() {
    let z = backup_command(BackupFormat::Zip, "/b/x.zip");
    assert_eq!(z.program, "zip");
    assert_eq!(z.args, vec!["-r", "/b/x.zip", ".", "-x", "backups/*", "logs/*"]);
    let t = backup_command(BackupFormat::Tar, "/b/x.tar");
    assert_eq!(t.program, "tar");
    assert_eq!(t.args, vec!["-cf", "/b/x.tar", "--exclude=backups", "--exclude=logs", "."]);
    let g = backup_command(BackupFormat::TarGz, "/b/x.tar.gz");
    assert_eq!(g.args[0], "-czf");
    let x = backup_command(BackupFormat::TarXz, "/b/x.tar.xz");
    assert_eq!(x.args[0], "-cJf");
    let c = backup_command(BackupFormat::Custom, "rsync -a . /b");
    assert_eq!(c.program, "sh");
    assert_eq!(c.args, vec!["-c", "rsync -a . /b"]);
}

#[test]
fn replace_text_matches_str_replace() {
    let cases = [
        ("cp -r {src} {dest}", "{src}", "~/s"),
        ("{src}{src}", "{src}", "x"),
        ("aaa", "aa", "b"),
        ("none here", "{dest}", "y"),
        ("", "{src}", "z"),
        ("{sr{src}c}", "{src}", ""),
    ];
    for (s, p, r) in cases {
        assert_eq!(replace_text(s, p, r), s.replace(p, r), "{:?} {:?} {:?}", s, p, r);
    }
}

#[test]
fn custom_commands_fill_both_placeholders() {
    assert_eq!(
        custom_backup_command("tar czf {dest}/a.tgz -C {src} .", "~/srv", "~/bk"),
        "tar czf ~/bk/a.tgz -C ~/srv ."
    );
    let cmd = "{src} {dest} {src}";
    let src = "has {dest} inside";
    assert_eq!(
        custom_backup_command(cmd, src, "D"),
        cmd.replace("{src}", src).replace("{dest}", "D")
    );
}

#[test]
fn autosave_is_paused_only_for_running_servers_with_rcon() {
    assert!(pause_autosave(&running_dir(Some("rcon_password=p\nrcon_port=25575\n"))));
    assert!(!pause_autosave(&running_dir(Some("rcon_password=p\n"))));
    assert!(!pause_autosave(&running_dir(None)));
    let mut stopped = running_dir(Some("rcon_password=p\nrcon_port=25575\n"));
    stopped.java_processes.clear();
    assert!(!pause_autosave(&stopped));
}

#[test]
fn download_pages_per_software() {
    assert_eq!(download_url("leafmc", "1.21"), "https://www.leafmc.one/download");
    assert_eq!(download_url("paper", "1.21"), "https://fill-ui.papermc.io/projects/paper");
    assert_eq!(download_url("purpur", "1.21.4"), "https://purpurmc.org/download/purpur/1.21.4");
    assert_eq!(download_url("spigot", "x"), "https://www.spigotmc.org/wiki/buildtools/");
    assert_eq!(download_url("fabric", "x"), "https://fabricmc.net/use/server/");
    assert_eq!(
        download_url("vanilla", "1.21.4"),
        "https://www.minecraft.net/en-us/article/minecraft-java-edition-1-21-4"
    );
    assert_eq!(download_url("forge", "1.21"), "");
    assert_eq!(download_url("Paper", "1.21"), "");
}

#[test]
fn software_menu_entries() {
    let names = ["leafmc", "paper", "purpur", "spigot", "fabric", "vanilla"];
    for (i, n) in names.iter().enumerate() {
        assert_eq!(software_for_choice(i + 1), Some(*n));
    }
    assert_eq!(software_for_choice(0), None);
    assert_eq!(software_for_choice(7), None);
}

#[test]
fn profile_lookups_dash_the_id() {
    assert_eq!(profile_url("Notch"), "https://api.mojang.com/users/profiles/minecraft/Notch");
    assert_eq!(
        dashed_uuid("069a79f444e94726a5befca90e38aaf5"),
        Some("069a79f4-44e9-4726-a5be-fca90e38aaf5".to_string())
    );
    assert_eq!(
        uuid_from_profile(r#"{"id":"069a79f444e94726a5befca90e38aaf5","name":"Notch"}"#),
        Some("069a79f4-44e9-4726-a5be-fca90e38aaf5".to_string())
    );
    assert_eq!(uuid_from_profile(r#"{"name":"Notch"}"#), None);
    assert_eq!(uuid_from_profile(r#"{"id":"short"}"#), None);
    assert_eq!(uuid_from_profile(r#"{"id":12}"#), None);
    assert_eq!(uuid_from_profile("not json"), None);
    assert_eq!(uuid_from_profile(""), None);
    assert_eq!(uuid_from_profile(r#"[{"id":"069a79f444e94726a5befca90e38aaf5"}]"#), None);
}

/// The id cut at bytes 8, 12, 16 and 20, where those are character
/// boundaries of a 32-byte id.
fn byte_dashed(id: &str) -> Option<String> {
    if id.len() != 32 {
        return None;
    }
    Some(format!(
        "{}-{}-{}-{}-{}",
        id.get(0..8)?,
        id.get(8..12)?,
        id.get(12..16)?,
        id.get(16..20)?,
        id.get(20..32)?
    ))
}

#[test]
fn ids_are_cut_at_byte_offsets() {
    let samples = [
        "069a79f444e94726a5befca90e38aaf5",
        "069a79f444e94726a5befca90e38aaf",
        "069a79f444e94726a5befca90e38aaf5a",
        "éééé€aabcdabcdabcdabcdabcd",
        "ééé€aaaaaaaaaaaaaaaaaaaaaaa",
        "🦀🦀abcd😀abcdabcdabcdabcd",
        "ab🦀cdefghijklmnopqrstuvwxyzab",
        "éééééééééééééééé",
        "",
    ];
    for id in samples {
        assert_eq!(dashed_uuid(id), byte_dashed(id), "id {:?}", id);
        let reply = format!("{{\"id\":\"{}\"}}", id);
        assert_eq!(uuid_from_profile(&reply), byte_dashed(id), "reply {:?}", reply);
    }
}

#[test]
fn public_addresses_default_to_unknown() {
    assert_eq!(public_ip_from(&Some(" 203.0.113.7\n".to_string())), "203.0.113.7");
    assert_eq!(public_ip_from(&Some("  \n".to_string())), "unknown");
    assert_eq!(public_ip_from(&None), "unknown");
}

#[test]
fn paths_are_shown_relative_to_a_given_home() {
    assert_eq!(display_path_in("/home/steve", "/home/steve"), "~");
    assert_eq!(display_path_in("/home/steve/servers/lobby", "/home/steve"), "~/servers/lobby");
    assert_eq!(display_path_in("/home/steve/", "/home/steve"), "~");
    assert_eq!(display_path_in("/home/stevenson/x", "/home/steve"), "/home/stevenson/x");
    assert_eq!(display_path_in("/srv/mc", "/"), "~/srv/mc");
    assert_eq!(display_path_in("/srv/mc", "/tmp/nowhere"), "/srv/mc");
}
