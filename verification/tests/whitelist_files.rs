use fastmc::whitelist::{
    player_name, unknown_uuid, whitelist_entries, whitelist_json_of, whitelist_with_player,
    whitelist_without_player,
};

/// The entries the whitelist menu lists.
fn entries_of(content: &str) -> Vec<String> {
    content.lines().filter(|l| !l.trim().is_empty()).map(|s| s.to_string()).collect()
}

/// The file after removing a player.
fn removed(content: &str, name: &str) -> String {
    content
        .lines()
        .filter(|l| l.split_whitespace().next().map(|n| n != name).unwrap_or(true))
        .collect::<Vec<_>>()
        .join("\n")
}

/// `whitelist.json` for the file's content.
fn json_of(content: &str) -> String {
    let mut json = "[".to_string();
    let mut first = true;
    for line in content.lines() {
        let parts: Vec<&str> = line.split_whitespace().collect();
        if parts.len() >= 2 {
            if !first {
                json.push(',');
            }
            json.push_str(&format!(r#"{{"uuid":"{}","name":"{}"}}"#, parts[1], parts[0]));
            first = false;
        }
    }
    json.push(']');
    json
}

const SAMPLES: [&str; 7] = [
    "",
    "Steve 8667ba71-b85a-4004-af54-457a9734eed7\n",
    "Steve uuid1\n\n   \nAlex uuid2\n",
    "Alex\nSteve uuid extra words\r\n",
    "  Steve   u1  \nSteveX u2",
    "Steve a\nSteve b\nAlex c",
    "\t\n",
];

#[test]
fn entries_are_the_non_blank_lines() {
    for s in SAMPLES {
        assert_eq!(whitelist_entries(&Some(s.to_string())), entries_of(s), "content {:?}", s);
    }
    assert!(whitelist_entries(&None).is_empty());
}

#[test]
fn player_names_are_first_words() {
    assert_eq!(player_name("Steve 8667ba71"), "Steve");
    assert_eq!(player_name("   Alex\tuuid"), "Alex");
    assert_eq!(player_name("   "), "");
    assert_eq!(player_name("Solo"), "Solo");
}

#[test]
fn the_unknown_uuid_is_all_zeros() {
    assert_eq!(unknown_uuid(), "00000000-0000-0000-0000-000000000000");
}

#[test]
fn adding_a_player_appends_a_line() {
    assert_eq!(whitelist_with_player(&None, "Steve", "u1"), "Steve u1\n");
    assert_eq!(
        whitelist_with_player(&Some("Alex u0\n".to_string()), "Steve", "u1"),
        "Alex u0\nSteve u1\n"
    );
    assert_eq!(whitelist_with_player(&Some("Alex u0".to_string()), "Steve", "u1"), "Alex u0Steve u1\n");
}

#[test]
fn an_added_player_is_listed_last() {
    for s in ["", "Alex u0\n", "Alex u0\n\n"] {
        let after = whitelist_with_player(&Some(s.to_string()), "Steve", "u1");
        let entries = whitelist_entries(&Some(after));
        assert_eq!(player_name(entries.last().unwrap()), "Steve", "content {:?}", s);
    }
}

#[test]
fn removing_a_player_drops_its_lines() {
    for s in SAMPLES {
        for name in ["Steve", "Alex", "Nobody", ""] {
            let c = Some(s.to_string());
            assert_eq!(whitelist_without_player(&c, name), removed(s, name), "{:?} {:?}", s, name);
        }
    }
    assert_eq!(whitelist_without_player(&None, "Steve"), "");
}

#[test]
fn a_removed_player_is_not_listed() {
    for s in SAMPLES {
        let after = whitelist_without_player(&Some(s.to_string()), "Steve");
        for e in whitelist_entries(&Some(after)) {
            assert_ne!(player_name(&e), "Steve");
        }
    }
}

#[test]
fn json_lists_lines_with_two_words() {
    for s in SAMPLES {
        assert_eq!(whitelist_json_of(&Some(s.to_string())), json_of(s), "content {:?}", s);
    }
    assert_eq!(whitelist_json_of(&None), "[]");
    assert_eq!(
        whitelist_json_of(&Some("Steve u1\nAlex u2\n".to_string())),
        r#"[{"uuid":"u1","name":"Steve"},{"uuid":"u2","name":"Alex"}]"#
    );
}

#[test]
fn a_last_entry_keeps_a_bare_carriage_return() {
    for s in ["Steve u1\r", "Alex u0\r\nSteve u1\r", "\r"] {
        assert_eq!(whitelist_entries(&Some(s.to_string())), entries_of(s), "content {:?}", s);
        assert_eq!(whitelist_json_of(&Some(s.to_string())), json_of(s), "content {:?}", s);
        assert_eq!(whitelist_without_player(&Some(s.to_string()), "Alex"), removed(s, "Alex"));
    }
}
