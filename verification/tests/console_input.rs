use fastmc::console::{
    answer_yes, clean_input, confirmed_yes, confirmed_yes_ascii, is_log_name, main_menu_choice,
    menu_choice_valid, name_usable, number_or_zero, parse_i32_of, parse_u64_of, parse_usize_of,
    resolve_jar_path, resolve_jar_path_in, sanitize_name, strip_ansi_of, strip_quotes, MainChoice,
};

/// The escape-sequence pattern the prompts strip.
fn ansi_regex() -> regex::Regex {
    regex::Regex::new(r"\x1b\[[0-9;]*[A-Za-z]").unwrap()
}

/// `prompt_yn`'s decision on an answer.
fn yes_no(answer: &str, default_yes: bool) -> bool {
    let ans = answer.trim().to_lowercase();
    if ans.is_empty() {
        return default_yes;
    }
    if default_yes {
        ans != "n"
    } else {
        ans == "y"
    }
}

#[test]
fn strip_ansi_removes_escape_sequences() {
    assert_eq!(strip_ansi_of("\x1b[31mred\x1b[0m"), "red");
    assert_eq!(strip_ansi_of("a\x1b[1;32mb"), "ab");
    assert_eq!(strip_ansi_of("\x1b[A"), "");
    assert_eq!(strip_ansi_of("\x1b["), "\x1b[");
    assert_eq!(strip_ansi_of("\x1b[12"), "\x1b[12");
    assert_eq!(strip_ansi_of("plain"), "plain");
}

#[test]
fn strip_ansi_matches_the_regex_replacement() {
    let re = ansi_regex();
    let samples = [
        "",
        "\x1b[0m",
        "\x1b[\x1b[0mX",
        "\x1b\x1b[1mY",
        "x\x1b[;;;zq",
        "\x1b[5\x1b[6mA",
        "é\x1b[2Jü",
        "\x1b[0;0H\x1b[2J",
        "\x1b[9",
        "[0m\x1b",
        "\x1b[1m\x1b[",
    ];
    for s in samples {
        assert_eq!(strip_ansi_of(s), re.replace_all(s, "").to_string(), "input {:?}", s);
    }
}

#[test]
fn clean_input_trims_then_strips() {
    assert_eq!(clean_input("  \x1b[31mhello\x1b[0m \n"), "hello");
    assert_eq!(clean_input("\t\n"), "");
    let re = ansi_regex();
    for s in [" a \x1b[1m b \n", "\x1b[2J  x", "x  \x1b[0m  "] {
        assert_eq!(clean_input(s), re.replace_all(s.trim(), "").to_string());
    }
}

#[test]
fn number_parsing_follows_str_parse() {
    let samples = [
        "", "0", "7", "+7", "-7", "007", "12a", " 1", "1 ", "+", "-", "18446744073709551615",
        "18446744073709551616", "4294967295", "4294967296", "99999999999999999999999", "٣",
    ];
    for s in samples {
        assert_eq!(parse_usize_of(s), s.parse::<usize>().ok(), "usize {:?}", s);
        assert_eq!(parse_u64_of(s), s.parse::<u64>().ok(), "u64 {:?}", s);
        assert_eq!(number_or_zero(s), s.parse::<usize>().unwrap_or(0), "number {:?}", s);
    }
}

#[test]
fn i32_parsing_follows_str_parse() {
    let samples = [
        "", "0", "-0", "+0", "42", "-42", "+42", "2147483647", "2147483648", "-2147483648",
        "-2147483649", "12x", "-", "+", " 5", "00012",
    ];
    for s in samples {
        assert_eq!(parse_i32_of(s), s.parse::<i32>().ok(), "i32 {:?}", s);
    }
}

#[test]
fn menu_choices_are_one_based() {
    assert!(!menu_choice_valid(0, 6));
    assert!(menu_choice_valid(1, 6));
    assert!(menu_choice_valid(6, 6));
    assert!(!menu_choice_valid(7, 6));
}

#[test]
fn main_menu_numbers_follow_the_listing() {
    assert_eq!(main_menu_choice(0, 1), MainChoice::AddServer);
    assert_eq!(main_menu_choice(0, 2), MainChoice::Quit);
    assert_eq!(main_menu_choice(0, 3), MainChoice::Invalid);
    assert_eq!(main_menu_choice(0, 0), MainChoice::Invalid);
    assert_eq!(main_menu_choice(3, 1), MainChoice::Manage(0));
    assert_eq!(main_menu_choice(3, 3), MainChoice::Manage(2));
    assert_eq!(main_menu_choice(3, 4), MainChoice::StartAll);
    assert_eq!(main_menu_choice(3, 5), MainChoice::StopAll);
    assert_eq!(main_menu_choice(3, 6), MainChoice::Broadcast);
    assert_eq!(main_menu_choice(3, 7), MainChoice::CrashLogs);
    assert_eq!(main_menu_choice(3, 8), MainChoice::AddServer);
    assert_eq!(main_menu_choice(3, 9), MainChoice::Quit);
    assert_eq!(main_menu_choice(3, 10), MainChoice::Invalid);
    assert_eq!(main_menu_choice(3, 0), MainChoice::Invalid);
}

#[test]
fn yes_no_answers_follow_the_default() {
    for a in ["", " ", "y", "Y", "n", "N", " n ", "no", "yes", "x", "ÿ"] {
        for d in [true, false] {
            assert_eq!(answer_yes(a, d), yes_no(a, d), "answer {:?} default {}", a, d);
        }
    }
    assert!(answer_yes("", true));
    assert!(!answer_yes("", false));
    assert!(!answer_yes(" N ", true));
    assert!(answer_yes("Y", false));
}

#[test]
fn overwrite_needs_yes_in_any_case() {
    assert!(confirmed_yes("yes"));
    assert!(confirmed_yes("  YES \n"));
    assert!(confirmed_yes("YeS"));
    assert!(!confirmed_yes("y"));
    assert!(!confirmed_yes("yess"));
    for a in ["yes", "Yes", " yEs ", "no", "", "ye s"] {
        assert_eq!(confirmed_yes(a), a.trim().to_lowercase() == "yes");
    }
}

#[test]
fn delete_confirmation_ignores_ascii_case() {
    for a in ["yes", "YES", " yEs ", "no", "", "ye", "yes!"] {
        assert_eq!(confirmed_yes_ascii(a), a.trim().eq_ignore_ascii_case("yes"), "{:?}", a);
    }
}

#[test]
fn names_turn_spaces_into_hyphens() {
    assert_eq!(sanitize_name("my server 1"), "my-server-1");
    assert_eq!(sanitize_name(""), "");
    assert_eq!(sanitize_name("  "), "--");
    assert!(name_usable("lobby", false));
    assert!(!name_usable("lobby", true));
    assert!(!name_usable("", false));
}

#[test]
fn strip_quotes_removes_one_matching_pair() {
    assert_eq!(strip_quotes("  '/tmp/a b.jar'  "), "/tmp/a b.jar");
    assert_eq!(strip_quotes("\"/x.jar\""), "/x.jar");
    assert_eq!(strip_quotes("'/x.jar\""), "'/x.jar\"");
    assert_eq!(strip_quotes("'"), "'");
    assert_eq!(strip_quotes("''"), "");
    assert_eq!(strip_quotes("plain"), "plain");
    assert_eq!(strip_quotes("''a''"), "'a'");
}

#[test]
fn jar_paths_expand_the_home_directory() {
    let home = dirs::home_dir().and_then(|p| p.into_os_string().into_string().ok());
    let expected = |s: &str| -> String {
        match &home {
            Some(h) => shellexpand::tilde_with_context(s, || Some(h.clone())).into_owned(),
            None => s.to_string(),
        }
    };
    assert_eq!(resolve_jar_path(" '~/Downloads/paper.jar' "), expected("~/Downloads/paper.jar"));
    assert_eq!(resolve_jar_path("~"), expected("~"));
    assert_eq!(resolve_jar_path("/opt/server.jar"), "/opt/server.jar");
    assert_eq!(resolve_jar_path("~other/x.jar"), "~other/x.jar");
    if let Some(h) = &home {
        assert_eq!(resolve_jar_path("\"~/a.jar\""), format!("{}/a.jar", h));
    }
}

#[test]
fn crash_logs_end_in_dot_log() {
    assert!(is_log_name("2024-05-01.log"));
    assert!(is_log_name(".log"));
    assert!(!is_log_name("log"));
    assert!(!is_log_name("a.log.gz"));
    assert!(!is_log_name(""));
}

#[test]
fn jar_paths_expand_a_given_home() {
    let home = Some("/home/steve".to_string());
    assert_eq!(resolve_jar_path_in(" '~/dl/paper.jar' ", home.clone()), "/home/steve/dl/paper.jar");
    assert_eq!(resolve_jar_path_in("~", home.clone()), "/home/steve");
    assert_eq!(resolve_jar_path_in("~x/a.jar", home.clone()), "~x/a.jar");
    assert_eq!(resolve_jar_path_in("\"/opt/a.jar\"", home), "/opt/a.jar");
    assert_eq!(resolve_jar_path_in("~/a.jar", None), "~/a.jar");
}
