use fastmc::network::{port_or_default, properties_with_port};
use fastmc::server::{resized_start_script, start_script};
use fastmc::ram::{get_ram, java_flags, log_size_label, parse_ram_amount, xmx_setting, RamUnit};

/// How the RAM column shows an amount of MiB.
fn gib_label(mib: u64) -> String {
    let gib = mib as f64 / 1024.0;
    if gib.fract() < 0.001 {
        format!("{}", gib.round() as u64)
    } else {
        format!("{:.1}", gib)
    }
}

/// The amount pattern of the RAM prompt.
fn ram_regex() -> regex::Regex {
    regex::Regex::new(r"^([0-9]*\.?[0-9]+)\s*([a-z]*)$").unwrap()
}

fn unit_of(u: &str) -> Option<RamUnit> {
    match u {
        "" | "g" | "gi" | "gib" => Some(RamUnit::Gib),
        "gb" => Some(RamUnit::Gb),
        "m" | "mb" | "mib" => Some(RamUnit::Mib),
        "k" | "kb" | "kib" => Some(RamUnit::Kib),
        "t" | "tb" | "tib" => Some(RamUnit::Tib),
        "p" | "pb" | "pib" => Some(RamUnit::Pib),
        _ => None,
    }
}

/// The scan of the start script for its `-Xmx` setting.
fn xmx_scan(content: &str) -> Option<String> {
    let cap = content.find("-Xmx")?;
    let rest = &content[cap + 4..];
    let num_str: String = rest.chars().take_while(|c| c.is_ascii_digit() || *c == '.').collect();
    let unit_str: String = rest
        .chars()
        .skip_while(|c| c.is_ascii_digit() || *c == '.')
        .take_while(|c| c.is_ascii_alphabetic())
        .collect();
    if num_str.is_empty() {
        None
    } else {
        Some(format!("{}{}", num_str, unit_str))
    }
}

#[test]
fn ram_labels_show_whole_or_tenths_of_gib() {
    assert_eq!(get_ram(None), "?");
    assert_eq!(get_ram(Some(4096)), "4");
    assert_eq!(get_ram(Some(1536)), "1.5");
    assert_eq!(get_ram(Some(0)), "0");
    assert_eq!(get_ram(Some(1000)), "1.0");
    assert_eq!(get_ram(Some(1)), "0");
    assert_eq!(get_ram(Some(2)), "0.0");
}

#[test]
fn ram_labels_match_float_formatting() {
    let mut samples: Vec<u64> = (0..5000).collect();
    samples.extend([
        1023, 1025, 1048575, 1048576, 4095, 4097, 123456789, 9007199254740991, 9007199254740993,
        18014398509481985, 18446744073709551615, 18446744073709550591, 1u64 << 63,
        (1u64 << 63) + 1024, 6917529027641081856, 4611686018427387905,
    ]);
    for m in samples {
        assert_eq!(get_ram(Some(m)), gib_label(m), "mib {}", m);
    }
}

#[test]
fn log_sizes_match_float_formatting() {
    let mut samples: Vec<u64> = (0..5000).collect();
    samples.extend([51, 52, 153, 154, 1048576, 18446744073709551615, 9007199254740993, 1 << 60]);
    for b in samples {
        assert_eq!(log_size_label(b), format!("{:.1} KB", b as f64 / 1024.0), "bytes {}", b);
    }
    assert_eq!(log_size_label(2048), "2.0 KB");
    assert_eq!(log_size_label(0), "0.0 KB");
}

#[test]
fn ram_amounts_are_read_as_the_pattern_reads_them() {
    let re = ram_regex();
    let samples = [
        "4G", "4g", " 4 GiB ", "4GB", "512M", "512mib", "1T", "2p", "0.5", ".5", "1.", "1.2.3",
        "4 g b", "4gbx", "", "G", "4\tk", "1e3", "-1", "4\u{2003}m", "4 ", "١٢", "12KiB",
    ];
    for s in samples {
        let lowered = s.trim().to_lowercase();
        let expected = re.captures(&lowered).and_then(|c| {
            let unit = unit_of(c.get(2).map_or("", |m| m.as_str()))?;
            Some((c[1].to_string(), unit))
        });
        let got = parse_ram_amount(s).map(|a| (a.number, a.unit));
        assert_eq!(got, expected, "input {:?}", s);
    }
}

#[test]
fn ram_amount_examples() {
    let a = parse_ram_amount("4GB").unwrap();
    assert_eq!(a.number, "4");
    assert_eq!(a.unit, RamUnit::Gb);
    let b = parse_ram_amount(" 1.5 t ").unwrap();
    assert_eq!(b.number, "1.5");
    assert_eq!(b.unit, RamUnit::Tib);
    assert!(parse_ram_amount("lots").is_none());
    assert!(parse_ram_amount("4 zb").is_none());
}

#[test]
fn xmx_settings_are_scanned_from_the_script() {
    let samples = [
        "exec java -Xmx4096m -Xms4096m -jar server.jar",
        "exec java -Xmx2G -Xms2G",
        "-Xmx",
        "-Xmxm",
        "no flags here",
        "-Xmx1.5Gb rest",
        "x -Xmx12 -Xmx34g",
        "-Xmx٣G",
    ];
    for s in samples {
        assert_eq!(xmx_setting(&Some(s.to_string())), xmx_scan(s), "script {:?}", s);
    }
    assert_eq!(xmx_setting(&None), None);
    assert_eq!(xmx_setting(&Some("java -Xmx4096m".to_string())), Some("4096m".to_string()));
}

#[test]
fn java_flags_have_the_expected_text() {
    assert_eq!(
        java_flags(4096, 491, 48),
        "-Xmx4096m -Xms4096m -XX:MaxMetaspaceSize=491m -XX:MaxDirectMemorySize=48m -Xss256k"
    );
    assert_eq!(
        java_flags(512, 128, 16),
        format!(
            "-Xmx{}m -Xms{}m -XX:MaxMetaspaceSize={}m -XX:MaxDirectMemorySize={}m -Xss256k",
            512, 512, 128, 16
        )
    );
}

#[test]
fn the_port_defaults_to_25565() {
    assert_eq!(port_or_default(""), "25565");
    assert_eq!(port_or_default("25570"), "25570");
}

#[test]
fn port_lines_are_rewritten_as_the_regex_does() {
    let re = regex::Regex::new("server-port=.*").unwrap();
    let contents = [
        "motd=hi\nserver-port=25565\npvp=true\n",
        "server-port=1\nserver-port=2",
        "a=1\n",
        "",
        "xserver-port=9 tail\r\nnext",
        "server-port=",
    ];
    let ports = ["25570", "", "$0", "$$", "${0}x", "$1", "$name", "$", "a$0b", "${00}", "$0a", "${x"];
    for c in contents {
        for p in ports {
            let expected = if c.contains("server-port=") {
                re.replace(c, format!("server-port={}", p).as_str()).to_string()
            } else {
                format!("{}\nserver-port={}", c, p)
            };
            assert_eq!(properties_with_port(c, p), expected, "content {:?} port {:?}", c, p);
        }
    }
}

#[test]
fn plain_ports_are_written_verbatim() {
    assert_eq!(properties_with_port("server-port=25565\n", "25570"), "server-port=25570\n");
    assert_eq!(properties_with_port("motd=x", "1"), "motd=x\nserver-port=1");
}

#[test]
fn a_start_script_reads_back_its_ram() {
    for n in [1u64, 4, 12, 1000] {
        let flags = java_flags(n * 1024, 491, 48);
        for script in [start_script("lobby", &flags), resized_start_script(&flags)] {
            let setting = xmx_setting(&Some(script)).unwrap();
            assert_eq!(setting, format!("{}m", n * 1024));
            assert_eq!(get_ram(Some(n * 1024)), n.to_string());
        }
    }
}
