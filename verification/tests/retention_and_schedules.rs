use fastmc::backup::{backup_plan, backup_schedule, cron_line, crontab_with, restore_command, BackupStep};
use fastmc::config::write_meta;
use fastmc::dir::{JavaProcess, ServerDir};
use fastmc::retention::{archive_of, archives_to_prune, keep_count};

fn names(v: &[&str]) -> Vec<String> {
    v.iter().map(|s| s.to_string()).collect()
}

/// The names beyond the newest `keep`, in the order given.
fn expected_prune(v: &[String], keep: usize) -> Vec<String> {
    v.iter().filter(|n| v.iter().filter(|m| m > n).count() >= keep).cloned().collect()
}

fn empty_dir() -> ServerDir {
    ServerDir {
        path: "/d".to_string(),
        meta_dir_exists: false,
        meta: Vec::new(),
        conf_exists: false,
        conf: None,
        properties: None,
        start_script_exists: false,
        start_script: None,
        jar_count: 0,
        canonical_path: None,
        java_processes: Vec::new(),
    }
}

#[test]
fn retention_keeps_the_newest_archives() {
    let v = names(&[
        "lobby_2024-05-03_10-00-1714730400.zip",
        "lobby_2024-05-01_10-00-1714557600.zip",
        "lobby_2024-05-07_10-00-1715076000.tar.gz",
        "lobby_2024-05-02_10-00-1714644000.tar",
        "lobby_2024-05-05_10-00-1714903200.zip",
        "lobby_2024-05-06_10-00-1714989600.zip",
        "lobby_2024-05-04_10-00-1714816800.zip",
    ]);
    assert_eq!(
        archives_to_prune(&v, 5),
        names(&["lobby_2024-05-01_10-00-1714557600.zip", "lobby_2024-05-02_10-00-1714644000.tar"])
    );
    assert_eq!(archives_to_prune(&v, 7), Vec::<String>::new());
    assert_eq!(archives_to_prune(&v, 0).len(), 7);
    assert_eq!(archives_to_prune(&v, 1).len(), 6);
    for keep in 0..9 {
        assert_eq!(archives_to_prune(&v, keep), expected_prune(&v, keep), "keep {}", keep);
    }
    assert!(archives_to_prune(&Vec::new(), 5).is_empty());
}

#[test]
fn the_retention_count_defaults_to_five() {
    let mut d = empty_dir();
    assert_eq!(keep_count(&d), 5);
    write_meta(&mut d, "backup_keep", "3");
    assert_eq!(keep_count(&d), 3);
    write_meta(&mut d, "backup_keep", "many");
    assert_eq!(keep_count(&d), 5);
}

#[test]
fn archives_are_named_after_their_server() {
    assert!(archive_of("lobby", "lobby_2024-05-01_10-00-1.zip"));
    assert!(!archive_of("lobby", "lobby2_2024.zip"));
    assert!(!archive_of("lobby", "notes.txt"));
}

#[test]
fn restores_unpack_by_extension() {
    let z = restore_command("a_1.zip", "/b/a_1.zip", "/srv/a").unwrap();
    assert_eq!(z.program, "unzip");
    assert_eq!(z.args, vec!["-o", "/b/a_1.zip", "-d", "/srv/a"]);
    let t = restore_command("a_1.tar", "/b/a_1.tar", "/srv/a").unwrap();
    assert_eq!(t.args, vec!["-xf", "/b/a_1.tar", "-C", "/srv/a"]);
    let g = restore_command("a_1.tar.gz", "/b/a_1.tar.gz", "/srv/a").unwrap();
    assert_eq!(g.program, "tar");
    assert_eq!(g.args[0], "-xzf");
    let x = restore_command("a_1.tar.xz", "/b/a_1.tar.xz", "/srv/a").unwrap();
    assert_eq!(x.args[0], "-xJf");
    assert!(restore_command("a_1.7z", "/b/a_1.7z", "/srv/a").is_none());
}

#[test]
fn schedules_and_crontab_lines() {
    assert_eq!(backup_schedule(1), Some("0 * * * *"));
    assert_eq!(backup_schedule(2), Some("0 3 * * *"));
    assert_eq!(backup_schedule(3), Some("0 3 * * 0"));
    assert_eq!(backup_schedule(4), None);
    assert_eq!(
        cron_line("0 3 * * *", "/usr/bin/fastmc", "/srv/it's", 3),
        "0 3 * * * '/usr/bin/fastmc' backup '/srv/it'\\''s' 3 # fastmc-backup /srv/it's"
    );
}

#[test]
fn crontabs_keep_other_lines_and_replace_the_servers() {
    let line = cron_line("0 * * * *", "/f", "/srv/a", 1);
    let other = "5 4 * * * /usr/bin/true";
    let old = format!("{}\n0 3 * * * '/f' backup '/srv/a' 2 # fastmc-backup /srv/a\n", other);
    assert_eq!(crontab_with(&old, "/srv/a", Some(line.clone())), format!("{}\n{}\n", other, line));
    assert_eq!(crontab_with(&old, "/srv/a", None), format!("{}\n", other));
    assert_eq!(crontab_with("", "/srv/a", None), "");
    assert_eq!(crontab_with(other, "/srv/b", Some(line.clone())), format!("{}\n{}\n", other, line));
}

#[test]
fn backups_switch_autosave_back_on() {
    let mut d = empty_dir();
    assert_eq!(backup_plan(&d), vec![BackupStep::Archive, BackupStep::Prune]);
    d.conf = Some("rcon_password=p\nrcon_port=25575\n".to_string());
    d.canonical_path = Some("/d".to_string());
    d.java_processes.push(JavaProcess {
        pid_text: "7".to_string(),
        comm: "java".to_string(),
        cmdline: None,
        cwd: Some("/d".to_string()),
    });
    assert_eq!(
        backup_plan(&d),
        vec![
            BackupStep::SaveAll,
            BackupStep::Pause,
            BackupStep::SaveOff,
            BackupStep::Archive,
            BackupStep::SaveOn,
            BackupStep::Prune
        ]
    );
}

#[test]
fn at_most_keep_archives_remain() {
    let v: Vec<String> = (0..9).map(|i| format!("s_2024-05-0{}_10-00-17000000{}.zip", i + 1, i)).collect();
    for keep in 0..12 {
        let gone = archives_to_prune(&v, keep);
        assert_eq!(v.len() - gone.len(), keep.min(v.len()), "keep {}", keep);
        for g in &gone {
            for k in v.iter().filter(|n| !gone.contains(n)) {
                assert!(g < k);
            }
        }
    }
}
