use fastmc::config::{
    conf_value_of, needs_backup_keep, rcon_password, rcon_port, read_conf, read_meta, server_notes, server_port,
    server_type, server_version, set_whitelist, whitelist_enabled, write_conf, write_meta,
    PropertiesError,
};
use fastmc::dir::{MetaFile, ServerDir};
use fastmc::paths::{backup_base, conf_path, crash_log_path, data_dir, join, log_base, sm_dir, sm_file};

fn empty_dir(path: &str) -> ServerDir {
    ServerDir {
        path: path.to_string(),
        meta_dir_exists: false,
        meta: Vec::new(),
        conf_exists: false,
        conf: None,
        properties: None,
        start_script_exists: false,
        start_script: None,
        jar_count: 0,
        canonical_path: None,
        java_processes: Vec::new(),
    }
}

fn meta(key: &str, content: &str) -> MetaFile {
    MetaFile { key: key.to_string(), content: content.to_string() }
}

/// `set_whitelist` as the file-level rewrite it performs.
fn whitelist_rewrite(content: &str, enabled: bool) -> String {
    if content.contains("white-list=") {
        content
            .lines()
            .map(|l| {
                if l.trim().starts_with("white-list=") {
                    format!("white-list={}", enabled)
                } else {
                    l.to_string()
                }
            })
            .collect::<Vec<_>>()
            .join("\n")
    } else {
        format!("{}\nwhite-list={}", content, enabled)
    }
}

/// `write_conf` as the file-level rewrite it performs.
fn conf_rewrite(existing: &str, key: &str, value: &str) -> String {
    let new_lines: Vec<String> = existing
        .lines()
        .filter(|line| !line.starts_with(&format!("{}=", key)))
        .map(|s| s.to_string())
        .chain(std::iter::once(format!("{}={}", key, value)))
        .collect();
    format!("{}\n", new_lines.join("\n"))
}

/// `read_conf` on a file's content.
fn conf_lookup(content: &str, key: &str) -> String {
    for line in content.lines() {
        if line.starts_with(&format!("{}=", key)) {
            return line.trim_start_matches(&format!("{}=", key)).to_string();
        }
    }
    String::new()
}

#[test]
fn metadata_paths_are_under_fastmc() {
    assert_eq!(sm_dir("/srv/mc/survival"), "/srv/mc/survival/fastmc");
    assert_eq!(sm_file("/srv/mc/survival", "type"), "/srv/mc/survival/fastmc/type");
    assert_eq!(conf_path("/srv/mc/survival"), "/srv/mc/survival/.mcserver.conf");
    assert_eq!(sm_dir("/srv/mc/survival/"), "/srv/mc/survival/fastmc");
}

#[test]
fn data_folders_follow_the_home_directory() {
    assert_eq!(data_dir("/home/steve"), "/home/steve/.local/share/fastmc");
    assert_eq!(backup_base("/home/steve"), "/home/steve/.local/share/fastmc/backups");
    assert_eq!(log_base("/home/steve"), "/home/steve/.local/share/fastmc/LOGS");
}

#[test]
fn join_matches_path_join() {
    let cases = [
        ("/a/b", "c"),
        ("/a/b/", "c"),
        ("", "c"),
        ("/a", "/etc"),
        ("rel", "x/y"),
        ("/a/b", ""),
        ("/", "fastmc"),
    ];
    for (base, part) in cases {
        let expected = std::path::Path::new(base).join(part).to_string_lossy().to_string();
        assert_eq!(join(base, part), expected, "join({:?}, {:?})", base, part);
    }
}

#[test]
fn read_meta_trims_and_defaults_to_empty() {
    let mut d = empty_dir("/srv/s");
    d.meta_dir_exists = true;
    d.meta.push(meta("type", "  paper\n"));
    d.meta.push(meta("version", "1.21.4\n"));
    d.meta.push(meta("notes", "\n"));
    assert_eq!(read_meta(&d, "type"), "paper");
    assert_eq!(server_type(&d), "paper");
    assert_eq!(server_version(&d), "1.21.4");
    assert_eq!(server_notes(&d), "");
    assert_eq!(server_port(&d), "");
    assert_eq!(read_meta(&d, "missing"), "");
}

#[test]
fn write_meta_then_read_meta_gives_the_trimmed_value() {
    let mut d = empty_dir("/srv/s");
    let text = write_meta(&mut d, "port", " 25570 ");
    assert_eq!(text, " 25570 \n");
    assert!(d.meta_dir_exists);
    assert_eq!(read_meta(&d, "port"), "25570");
    let again = write_meta(&mut d, "port", "25571");
    assert_eq!(again, "25571\n");
    assert_eq!(d.meta.len(), 1);
    assert_eq!(server_port(&d), "25571");
}

#[test]
fn write_meta_keeps_other_files() {
    let mut d = empty_dir("/srv/s");
    write_meta(&mut d, "type", "purpur");
    write_meta(&mut d, "version", "1.20.1");
    write_meta(&mut d, "type", "fabric");
    assert_eq!(server_type(&d), "fabric");
    assert_eq!(server_version(&d), "1.20.1");
    assert_eq!(d.meta.len(), 2);
    assert_eq!(d.meta[0].key, "type");
}

#[test]
fn read_conf_takes_the_first_matching_line() {
    let content = "rcon_password=abc\nrcon_port=25575\nrcon_password=zzz\n";
    let conf = Some(content.to_string());
    assert_eq!(conf_value_of(&conf, "rcon_password"), "abc");
    assert_eq!(conf_value_of(&conf, "rcon_port"), "25575");
    assert_eq!(conf_value_of(&conf, "other"), "");
    assert_eq!(conf_value_of(&None, "rcon_port"), "");
}

#[test]
fn read_conf_strips_every_leading_key() {
    let conf = Some("k=k=v\nx=1".to_string());
    assert_eq!(conf_value_of(&conf, "k"), conf_lookup("k=k=v\nx=1", "k"));
    assert_eq!(conf_value_of(&conf, "k"), "v");
    let crlf = Some("rcon_port=25575\r\n".to_string());
    assert_eq!(conf_value_of(&crlf, "rcon_port"), "25575");
}

#[test]
fn read_conf_matches_the_line_scan_on_samples() {
    let samples = [
        "",
        "a=1",
        "a=1\nb=2\n",
        " a=1\na=2",
        "ab=3\na=4",
        "a=\n",
        "a=a=a=\n",
        "\n\na=x y z\r\n",
    ];
    for s in samples {
        for key in ["a", "b", "ab", ""] {
            let d = ServerDir { conf: Some(s.to_string()), ..empty_dir("/d") };
            assert_eq!(read_conf(&d, key), conf_lookup(s, key), "content {:?} key {:?}", s, key);
        }
    }
}

#[test]
fn write_conf_replaces_the_key_and_appends_it() {
    let mut d = empty_dir("/srv/s");
    let t = write_conf(&mut d, "rcon_password", "secret");
    assert_eq!(t, "rcon_password=secret\n");
    let t2 = write_conf(&mut d, "rcon_port", "25575");
    assert_eq!(t2, "rcon_password=secret\nrcon_port=25575\n");
    let t3 = write_conf(&mut d, "rcon_password", "other");
    assert_eq!(t3, "rcon_port=25575\nrcon_password=other\n");
    assert_eq!(rcon_password(&d), "other");
    assert_eq!(rcon_port(&d), "25575");
    assert!(d.conf_exists);
}

#[test]
fn write_conf_matches_the_file_rewrite() {
    let samples = ["", "a=1", "a=1\nb=2\n", "b=2\r\na=9\n", "\n\n", "ab=1\na=2\na=3"];
    for s in samples {
        let mut d = ServerDir { conf: Some(s.to_string()), conf_exists: true, ..empty_dir("/d") };
        let t = write_conf(&mut d, "a", "new");
        assert_eq!(t, conf_rewrite(s, "a", "new"), "content {:?}", s);
        assert_eq!(d.conf, Some(t.clone()));
        assert_eq!(read_conf(&d, "a"), "new");
    }
}

#[test]
fn write_conf_on_a_missing_file_starts_empty() {
    let mut d = empty_dir("/d");
    let t = write_conf(&mut d, "rcon_port", "25575");
    assert_eq!(t, conf_rewrite("", "rcon_port", "25575"));
}

#[test]
fn whitelist_enabled_reads_the_first_whitelist_line() {
    let mut d = empty_dir("/d");
    assert!(!whitelist_enabled(&d));
    d.properties = Some("motd=hi\nwhite-list=true\n".to_string());
    assert!(whitelist_enabled(&d));
    d.properties = Some("  white-list=false\nwhite-list=true".to_string());
    assert!(!whitelist_enabled(&d));
    d.properties = Some("white-list=true=yes".to_string());
    assert!(whitelist_enabled(&d));
    d.properties = Some("white-list=TRUE".to_string());
    assert!(!whitelist_enabled(&d));
    d.properties = Some("#white-list=true\n".to_string());
    assert!(!whitelist_enabled(&d));
}

#[test]
fn set_whitelist_rewrites_the_line() {
    let mut d = empty_dir("/d");
    d.properties = Some("motd=hi\nwhite-list=false\npvp=true\n".to_string());
    let t = set_whitelist(&mut d, true).unwrap();
    assert_eq!(t, "motd=hi\nwhite-list=true\npvp=true");
    assert_eq!(d.properties, Some(t));
    assert!(whitelist_enabled(&d));
}

#[test]
fn set_whitelist_appends_where_missing() {
    let mut d = empty_dir("/d");
    d.properties = Some("motd=hi\n".to_string());
    let t = set_whitelist(&mut d, false).unwrap();
    assert_eq!(t, "motd=hi\n\nwhite-list=false");
    assert!(!whitelist_enabled(&d));
}

#[test]
fn set_whitelist_without_properties_is_an_error() {
    let mut d = empty_dir("/d");
    assert_eq!(set_whitelist(&mut d, true), Err(PropertiesError::Unreadable));
    assert_eq!(d.properties, None);
}

#[test]
fn set_whitelist_matches_the_file_rewrite() {
    let samples = [
        "",
        "white-list=true",
        "a=1\n  white-list=false  \nb=2\n",
        "x=white-list=1\n",
        "white-list=false\r\nwhite-list=true\r\n",
        "#white-list=true\nwhite-list=false",
    ];
    for s in samples {
        for enabled in [true, false] {
            let mut d = ServerDir { properties: Some(s.to_string()), ..empty_dir("/d") };
            let t = set_whitelist(&mut d, enabled).unwrap();
            assert_eq!(t, whitelist_rewrite(s, enabled), "content {:?} enabled {}", s, enabled);
        }
    }
}

#[test]
fn toggling_the_whitelist_reads_back() {
    for s in ["", "motd=x\n", "white-list=false\n", "a=1\nwhite-list=true"] {
        for enabled in [true, false] {
            let mut d = ServerDir { properties: Some(s.to_string()), ..empty_dir("/d") };
            set_whitelist(&mut d, enabled).unwrap();
            assert_eq!(whitelist_enabled(&d), enabled, "content {:?}", s);
        }
    }
}

#[test]
fn the_backup_retention_defaults_to_five_once() {
    let mut d = empty_dir("/d");
    assert!(needs_backup_keep(&d));
    write_meta(&mut d, "backup_keep", "5");
    assert!(!needs_backup_keep(&d));
    assert_eq!(read_meta(&d, "backup_keep"), "5");
    let blank = ServerDir {
        meta: vec![meta("backup_keep", "  \n")],
        meta_dir_exists: true,
        ..empty_dir("/d")
    };
    assert!(needs_backup_keep(&blank));
}

#[test]
fn crash_logs_are_named_by_date() {
    assert_eq!(
        crash_log_path("/home/a/.local/share/fastmc/LOGS", "2024-05-01"),
        "/home/a/.local/share/fastmc/LOGS/2024-05-01.log"
    );
}

#[test]
fn a_last_line_keeps_a_bare_carriage_return() {
    for s in ["a=1\r", "b=2\r\na=1\r", "a=1\r\r\n", "\r"] {
        let d = ServerDir { conf: Some(s.to_string()), ..empty_dir("/d") };
        assert_eq!(read_conf(&d, "a"), conf_lookup(s, "a"), "content {:?}", s);
    }
    let d = ServerDir { conf: Some("a=1\r".to_string()), ..empty_dir("/d") };
    assert_eq!(read_conf(&d, "a"), "1\r");
    let mut w = empty_dir("/d");
    w.properties = Some("white-list=true\r".to_string());
    assert!(whitelist_enabled(&w));
    w.properties = Some("white-list=true\r\n".to_string());
    assert!(whitelist_enabled(&w));
    for s in ["white-list=false\r", "x=1\r"] {
        let mut d = ServerDir { properties: Some(s.to_string()), ..empty_dir("/d") };
        let t = set_whitelist(&mut d, true).unwrap();
        assert_eq!(t, whitelist_rewrite(s, true), "content {:?}", s);
    }
}
