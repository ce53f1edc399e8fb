//! Server directories: their state, tmux session, running process, the
//! RAM their start script sets, and the commands that start them.

use vstd::prelude::*;
use crate::dir::{JavaProcess, ServerDir};
use crate::paths::{file_name, server_name};
use crate::text::{
    chars_of, digit_char, digit_of, extend_chars, extend_vec,
    is_prefix, string_of, trim, trim_str,
};

verus! {

/// The state of a server directory: with no JAR it is `broken` where it
/// still has its configuration or metadata folder and `empty` otherwise;
/// with a JAR it is `initialized` where it has its metadata folder and a
/// start script, and `fresh` otherwise.
pub open spec fn state_label(dir: ServerDir) -> Seq<char> {
    if dir.jar_count == 0 {
        if dir.conf_exists || dir.meta_dir_exists {
            "broken"@
        } else {
            "empty"@
        }
    } else if dir.meta_dir_exists && dir.start_script_exists {
        "initialized"@
    } else {
        "fresh"@
    }
}

/// The state of a server directory (see `state_label`).
pub fn server_state(dir: &ServerDir) -> (r: &'static str)
    ensures
        r@ == state_label(*dir),
{
    if dir.jar_count == 0 {
        if dir.conf_exists || dir.meta_dir_exists {
            "broken"
        } else {
            "empty"
        }
    } else if dir.meta_dir_exists && dir.start_script_exists {
        "initialized"
    } else {
        "fresh"
    }
}

/// The tmux session of a server: `mcserver-` and its name with dots and
/// spaces made underscores.
pub open spec fn session_of(name: Seq<char>) -> Seq<char> {
    "mcserver-"@ + name.map_values(|c: char| if c == '.' || c == ' ' { '_' } else { c })
}

/// The tmux session of the server in `dir`.
pub fn session_name(dir: &str) -> (r: String)
    requires
        file_name(dir@) is Some,
    ensures
        r@ == session_of(file_name(dir@)->0),
{
    let name = chars_of(server_name(dir).as_str());
    let mut v = chars_of("mcserver-");
    let ghost v0 = v@;
    let mut i: usize = 0;
    while i < name.len()
        invariant
            i <= name.len(),
            v@ == v0 + name@.take(i as int).map_values(
                |c: char| if c == '.' || c == ' ' { '_' } else { c },
            ),
        decreases name.len() - i,
    {
        let c = name[i];
        v.push(if c == '.' || c == ' ' { '_' } else { c });
        assert(name@.take(i + 1).map_values(|c: char| if c == '.' || c == ' ' { '_' } else { c })
            =~= name@.take(i as int).map_values(
            |c: char| if c == '.' || c == ' ' { '_' } else { c },
        ).push(if c == '.' || c == ' ' { '_' } else { c }));
        i = i + 1;
    }
    assert(name@.take(name.len() as int) =~= name@);
    string_of(&v)
}

} // verus!

verus! {

/// A command line as `/proc/<pid>/cmdline` holds it, with each NUL made a
/// space.
pub open spec fn nul_to_space(s: Seq<char>) -> Seq<char> {
    s.map_values(|c: char| if c == '\0' { ' ' } else { c })
}

/// A process `pgrep` listed is the server of the directory whose canonical
/// path is `dir`: its line is a process id, its command is `java`, and it
/// runs in that directory or its command line names it. Another server's
/// process, running elsewhere, does not count.
pub open spec fn process_matches(p: JavaProcess, dir: Seq<char>) -> bool {
    &&& crate::console::parse_i32(p.pid_text@) is Some
    &&& trim(p.comm@) == "java"@
    &&& (match p.cwd {
        Some(w) => w@ == dir,
        None => false,
    } || match p.cmdline {
        Some(c) => crate::config::occurs(dir, nul_to_space(c@)),
        None => false,
    })
}

/// The id of the first listed process that is the directory's server.
pub open spec fn first_server_pid(ps: Seq<JavaProcess>, dir: Seq<char>) -> Option<i32>
    decreases ps.len(),
{
    if ps.len() == 0 {
        None
    } else if process_matches(ps[0], dir) {
        crate::console::parse_i32(ps[0].pid_text@)
    } else {
        first_server_pid(ps.drop_first(), dir)
    }
}

/// The process id of the directory's running server: none where its path
/// cannot be resolved or no listed process is its server.
pub open spec fn server_pid_of(d: ServerDir) -> Option<i32> {
    match d.canonical_path {
        Some(p) => first_server_pid(d.java_processes@, p@),
        None => None,
    }
}

/// Whether the process `p` is the server of the directory `dir`.
fn matches_process(p: &JavaProcess, dir: &Vec<char>) -> (r: bool)
    ensures
        r == process_matches(*p, dir@),
{
    if crate::console::parse_i32_of(p.pid_text.as_str()).is_none() {
        return false;
    }
    let comm = chars_of(trim_str(p.comm.as_str()).as_str());
    let java = chars_of("java");
    if !crate::text::chars_eq(&comm, &java) {
        return false;
    }
    if let Some(w) = &p.cwd {
        if crate::text::chars_eq(&chars_of(w.as_str()), dir) {
            return true;
        }
    }
    match &p.cmdline {
        None => false,
        Some(c) => {
            let raw = chars_of(c.as_str());
            let mut n: Vec<char> = Vec::new();
            let mut i: usize = 0;
            while i < raw.len()
                invariant
                    i <= raw.len(),
                    n@ == nul_to_space(raw@.take(i as int)),
                decreases raw.len() - i,
            {
                n.push(if raw[i] == '\0' { ' ' } else { raw[i] });
                assert(nul_to_space(raw@.take(i + 1)) =~= nul_to_space(raw@.take(i as int)).push(
                    if raw@[i as int] == '\0' { ' ' } else { raw@[i as int] },
                ));
                i = i + 1;
            }
            assert(raw@.take(raw.len() as int) =~= raw@);
            crate::config::occurs_in(&n, dir)
        },
    }
}

/// The process id of the directory's running server, if it runs.
pub fn get_server_pid(dir: &ServerDir) -> (r: Option<i32>)
    ensures
        r == server_pid_of(*dir),
{
    match &dir.canonical_path {
        None => None,
        Some(p) => {
            let d = chars_of(p.as_str());
            let ps = &dir.java_processes;
            let mut i: usize = 0;
            assert(ps@.skip(0) =~= ps@);
            assert(server_pid_of(*dir) == first_server_pid(ps@, d@));
            while i < ps.len()
                invariant
                    i <= ps.len(),
                    d@ == p@,
                    server_pid_of(*dir) == first_server_pid(ps@, d@),
                    first_server_pid(ps@, d@) == first_server_pid(ps@.skip(i as int), d@),
                decreases ps.len() - i,
            {
                assert(ps@.skip(i as int)[0] == ps@[i as int]);
                assert(ps@.skip(i as int).drop_first() =~= ps@.skip(i + 1));
                if matches_process(&ps[i], &d) {
                    return crate::console::parse_i32_of(ps[i].pid_text.as_str());
                }
                i = i + 1;
            }
            None
        },
    }
}

/// Whether the server of the directory is running.
pub fn server_running(dir: &ServerDir) -> (r: bool)
    ensures
        r == server_pid_of(*dir) is Some,
{
    get_server_pid(dir).is_some()
}


/// A directory counts as running only where one of the listed `java`
/// processes runs in it or names it on its command line; processes of
/// other servers, running in their own directories, do not make it run.
pub proof fn law_running_needs_own_process(d: ServerDir)
    requires
        server_pid_of(d) is Some,
    ensures
        exists|i: int|
            0 <= i < d.java_processes@.len() && process_matches(
                #[trigger] d.java_processes@[i],
                d.canonical_path->0@,
            ),
{
    lemma_first_server_pid(d.java_processes@, d.canonical_path->0@);
}

proof fn lemma_first_server_pid(ps: Seq<JavaProcess>, dir: Seq<char>)
    requires
        first_server_pid(ps, dir) is Some,
    ensures
        exists|i: int| 0 <= i < ps.len() && process_matches(#[trigger] ps[i], dir),
    decreases ps.len(),
{
    if process_matches(ps[0], dir) {
        assert(process_matches(ps[0], dir));
    } else {
        lemma_first_server_pid(ps.drop_first(), dir);
        let i = choose|i: int| 0 <= i < ps.drop_first().len() && process_matches(
            #[trigger] ps.drop_first()[i],
            dir,
        );
        assert(ps[i + 1] == ps.drop_first()[i]);
    }
}

} // verus!

verus! {

/// The start script written by the first-time setup.
pub open spec fn start_script_text(name: Seq<char>, flags: Seq<char>) -> Seq<char> {
    "#!/usr/bin/env bash\n# fastmc — start script for "@ + name
        + "\ncd \"$(dirname \"$0\")\"\nulimit -c 0\nulimit -n 8192\nexec java "@ + flags
        + " -jar server.jar nogui\n"@
}

/// The start script of a server named `name` running the JVM with `flags`.
pub fn start_script(name: &str, flags: &str) -> (r: String)
    ensures
        r@ == start_script_text(name@, flags@),
{
    let mut v = chars_of("#!/usr/bin/env bash\n# fastmc — start script for ");
    extend_chars(&mut v, name);
    extend_chars(&mut v, "\ncd \"$(dirname \"$0\")\"\nulimit -c 0\nulimit -n 8192\nexec java ");
    extend_chars(&mut v, flags);
    extend_chars(&mut v, " -jar server.jar nogui\n");
    string_of(&v)
}

/// The start script written when the RAM allocation changes.
pub open spec fn resized_script_text(flags: Seq<char>) -> Seq<char> {
    "#!/usr/bin/env bash\ncd \"$(dirname \"$0\")\"\nulimit -c 0\nulimit -n 8192\nexec java "@
        + flags + " -jar server.jar nogui\n"@
}

/// The start script for a new RAM allocation given as JVM flags.
pub fn resized_start_script(flags: &str) -> (r: String)
    ensures
        r@ == resized_script_text(flags@),
{
    let mut v = chars_of(
        "#!/usr/bin/env bash\ncd \"$(dirname \"$0\")\"\nulimit -c 0\nulimit -n 8192\nexec java ",
    );
    extend_chars(&mut v, flags);
    extend_chars(&mut v, " -jar server.jar nogui\n");
    string_of(&v)
}

/// The start script written when a broken server is recovered and has
/// none.
pub fn recovery_start_script() -> (r: String)
    ensures
        r@ == "#!/usr/bin/env bash\ncd \"$(dirname \"$0\")\"\nexec java -Xmx2G -Xms2G -jar server.jar nogui\n"@,
{
    string_of(
        &chars_of(
            "#!/usr/bin/env bash\ncd \"$(dirname \"$0\")\"\nexec java -Xmx2G -Xms2G -jar server.jar nogui\n",
        ),
    )
}

/// `s` made safe inside single quotes for `sh`: each `'` becomes `'\''`.
pub open spec fn shell_quoted(s: Seq<char>) -> Seq<char>
    decreases s.len(),
{
    if s.len() == 0 {
        seq![]
    } else if s[0] == '\'' {
        "'\\''"@ + shell_quoted(s.drop_first())
    } else {
        seq![s[0]] + shell_quoted(s.drop_first())
    }
}

/// `s` with each `'` replaced by `'\''`.
pub fn shell_quote(s: &str) -> (r: Vec<char>)
    ensures
        r@ == shell_quoted(s@),
{
    let v = chars_of(s);
    let mut n = v.len();
    let mut tail: Vec<char> = Vec::new();
    assert(v@.skip(n as int) =~= Seq::<char>::empty());
    while n > 0
        invariant
            n <= v.len(),
            v@ == s@,
            tail@ == shell_quoted(v@.skip(n as int)),
        decreases n,
    {
        n = n - 1;
        let mut next: Vec<char> = if v[n] == '\'' {
            chars_of("'\\''")
        } else {
            let mut one: Vec<char> = Vec::new();
            one.push(v[n]);
            one
        };
        let ghost h = next@;
        extend_vec(&mut next, &tail);
        assert(v@.skip(n as int).drop_first() =~= v@.skip(n + 1));
        assert(v@.skip(n as int)[0] == v@[n as int]);
        proof {
            if v@[n as int] != '\'' {
                assert(h =~= seq![v@[n as int]]);
            }
        }
        tail = next;
    }
    assert(v@.skip(0) =~= v@);
    tail
}

/// The shell command that starts a server's supervisor in a detached tmux
/// session.
pub open spec fn tmux_start_text(session: Seq<char>, dir: Seq<char>, program: Seq<char>) -> Seq<char> {
    "tmux new-session -d -s "@ + session + " -c '"@ + shell_quoted(dir) + "' "@ + program
        + " supervisor '"@ + shell_quoted(dir) + "'"@
}

/// The `sh -c` command that starts the supervisor of the server in `dir`
/// in tmux session `session`, running the program `program`.
pub fn tmux_start_command(session: &str, dir: &str, program: &str) -> (r: String)
    ensures
        r@ == tmux_start_text(session@, dir@, program@),
{
    let q = shell_quote(dir);
    let mut v = chars_of("tmux new-session -d -s ");
    extend_chars(&mut v, session);
    extend_chars(&mut v, " -c '");
    extend_vec(&mut v, &q);
    extend_chars(&mut v, "' ");
    extend_chars(&mut v, program);
    extend_chars(&mut v, " supervisor '");
    extend_vec(&mut v, &q);
    extend_chars(&mut v, "'");
    string_of(&v)
}

/// The options of the server menu, in the order they are listed.
#[derive(PartialEq, Eq, Structural, Debug, Clone, Copy)]
pub enum ServerOption {
    FirstTimeSetup,
    Recover,
    Attach,
    ViewConsole,
    ResourceMonitor,
    StopGracefully,
    ForceStop,
    Start,
    Backup,
    RestoreBackup,
    ScheduleBackups,
    ManageWhitelist,
    ChangeRam,
    Duplicate,
    EditNotes,
    Rename,
    Delete,
    Back,
}

/// The server menu for a server in `state` that is or is not running: the
/// setup of a fresh server, the recovery of a broken one, for an
/// initialized one its console and stop options while it runs or its start
/// otherwise and then backup, restore, backup scheduling, whitelist, RAM and
/// duplication; then always
/// notes, rename, delete and back.
pub open spec fn menu_options(state: Seq<char>, running: bool) -> Seq<ServerOption> {
    let head = if state == "fresh"@ {
        seq![ServerOption::FirstTimeSetup]
    } else if state == "broken"@ {
        seq![ServerOption::Recover]
    } else if state == "initialized"@ {
        (if running {
            seq![
                ServerOption::Attach,
                ServerOption::ViewConsole,
                ServerOption::ResourceMonitor,
                ServerOption::StopGracefully,
                ServerOption::ForceStop,
            ]
        } else {
            seq![ServerOption::Start]
        }) + seq![
            ServerOption::Backup,
            ServerOption::RestoreBackup,
            ServerOption::ScheduleBackups,
            ServerOption::ManageWhitelist,
            ServerOption::ChangeRam,
            ServerOption::Duplicate,
        ]
    } else {
        seq![]
    };
    head + seq![ServerOption::EditNotes, ServerOption::Rename, ServerOption::Delete, ServerOption::Back]
}

/// The options of the server menu for `dir`.
pub fn server_menu(dir: &ServerDir) -> (r: Vec<ServerOption>)
    ensures
        r@ == menu_options(state_label(*dir), server_pid_of(*dir) is Some),
{
    let state = server_state(dir);
    let running = server_running(dir);
    let mut v: Vec<ServerOption> = Vec::new();
    let st = chars_of(state);
    let is_fresh = crate::text::chars_eq(&st, &chars_of("fresh"));
    let is_broken = crate::text::chars_eq(&st, &chars_of("broken"));
    let is_init = crate::text::chars_eq(&st, &chars_of("initialized"));
    if is_fresh {
        v.push(ServerOption::FirstTimeSetup);
    } else if is_broken {
        v.push(ServerOption::Recover);
    } else if is_init {
        if running {
            v.push(ServerOption::Attach);
            v.push(ServerOption::ViewConsole);
            v.push(ServerOption::ResourceMonitor);
            v.push(ServerOption::StopGracefully);
            v.push(ServerOption::ForceStop);
        } else {
            v.push(ServerOption::Start);
        }
        v.push(ServerOption::Backup);
        v.push(ServerOption::RestoreBackup);
        v.push(ServerOption::ScheduleBackups);
        v.push(ServerOption::ManageWhitelist);
        v.push(ServerOption::ChangeRam);
        v.push(ServerOption::Duplicate);
    }
    v.push(ServerOption::EditNotes);
    v.push(ServerOption::Rename);
    v.push(ServerOption::Delete);
    v.push(ServerOption::Back);
    assert(v@ =~= menu_options(state_label(*dir), running));
    v
}

/// Every server menu ends with notes, rename, delete and back; it offers
/// starting exactly for an initialized server that is not running, and
/// stopping only for one that is.
pub proof fn law_menu_shape(state: Seq<char>, running: bool)
    ensures
        ({
            let m = menu_options(state, running);
            &&& m.len() >= 4
            &&& m[m.len() - 1] == ServerOption::Back
            &&& m[m.len() - 2] == ServerOption::Delete
            &&& m.contains(ServerOption::Start) <==> (state == "initialized"@ && !running)
            &&& m.contains(ServerOption::StopGracefully) ==> running
            &&& m.contains(ServerOption::ForceStop) ==> running
        }),
{
    reveal_strlit("fresh");
    reveal_strlit("broken");
    reveal_strlit("initialized");
    let m = menu_options(state, running);
    if state == "initialized"@ && !running {
        assert(m[0] == ServerOption::Start);
    }
    if m.contains(ServerOption::Start) {
        let k = choose|k: int| 0 <= k < m.len() && m[k] == ServerOption::Start;
        assert(state == "initialized"@ && !running);
    }
    if m.contains(ServerOption::StopGracefully) {
        let k = choose|k: int| 0 <= k < m.len() && m[k] == ServerOption::StopGracefully;
        assert(running);
    }
    if m.contains(ServerOption::ForceStop) {
        let k = choose|k: int| 0 <= k < m.len() && m[k] == ServerOption::ForceStop;
        assert(running);
    }
}

} // verus!

verus! {

/// Whether an entry of the servers folder is listed as a server: a
/// directory other than `backups` and `LOGS` that holds a JAR, a
/// `.mcserver.conf` or a `fastmc/` folder.
pub open spec fn is_server_entry(
    name: Seq<char>,
    is_dir: bool,
    jar_count: nat,
    has_conf: bool,
    has_meta: bool,
) -> bool {
    is_dir && name != "backups"@ && name != "LOGS"@ && (jar_count > 0 || has_conf || has_meta)
}

/// Whether `scan_servers` lists an entry of the servers folder.
pub fn lists_as_server(name: &str, is_dir: bool, jar_count: usize, has_conf: bool, has_meta: bool) -> (r:
    bool)
    ensures
        r == is_server_entry(name@, is_dir, jar_count as nat, has_conf, has_meta),
{
    is_dir && !crate::text::str_eq(name, "backups") && !crate::text::str_eq(name, "LOGS") && (
    jar_count > 0 || has_conf || has_meta)
}

/// Whether a duplicate made without world data leaves out the entry
/// `name`: the three worlds and the logs.
pub fn skipped_without_worlds(name: &str) -> (r: bool)
    ensures
        r == (name@ == "world"@ || name@ == "world_nether"@ || name@ == "world_the_end"@ || name@
            == "logs"@),
{
    crate::text::str_eq(name, "world") || crate::text::str_eq(name, "world_nether")
        || crate::text::str_eq(name, "world_the_end") || crate::text::str_eq(name, "logs")
}

/// Whether a world left behind is incomplete and is removed before the
/// server starts: the world folder exists with a `level.dat` but without
/// its overworld generation settings.
pub fn world_incomplete(world_exists: bool, level_dat_exists: bool, gen_settings_exists: bool) -> (r:
    bool)
    ensures
        r == (world_exists && level_dat_exists && !gen_settings_exists),
{
    world_exists && level_dat_exists && !gen_settings_exists
}

/// The lowercase hexadecimal digit for `d < 16`.
pub open spec fn hex_digit(d: nat) -> char {
    if d < 10 {
        digit_char(d)
    } else if d == 10 {
        'a'
    } else if d == 11 {
        'b'
    } else if d == 12 {
        'c'
    } else if d == 13 {
        'd'
    } else if d == 14 {
        'e'
    } else {
        'f'
    }
}

/// The bytes written as two lowercase hexadecimal digits each
/// (`format!("{:02x}", b)` for each byte).
pub open spec fn hex_text(bytes: Seq<u8>) -> Seq<char>
    decreases bytes.len(),
{
    if bytes.len() == 0 {
        seq![]
    } else {
        hex_text(bytes.drop_last()) + seq![
            hex_digit(bytes.last() as nat / 16),
            hex_digit(bytes.last() as nat % 16),
        ]
    }
}

fn hex_digit_of(d: u8) -> (c: char)
    requires
        d < 16,
    ensures
        c == hex_digit(d as nat),
{
    if d < 10 {
        digit_of(d as u64)
    } else if d == 10 {
        'a'
    } else if d == 11 {
        'b'
    } else if d == 12 {
        'c'
    } else if d == 13 {
        'd'
    } else if d == 14 {
        'e'
    } else {
        'f'
    }
}

/// The bytes in lowercase hexadecimal.
pub fn hex_of(bytes: &[u8]) -> (r: String)
    ensures
        r@ == hex_text(bytes@),
        r@.len() == 2 * bytes@.len(),
{
    let mut v: Vec<char> = Vec::new();
    let mut i: usize = 0;
    while i < bytes.len()
        invariant
            i <= bytes.len(),
            v@ == hex_text(bytes@.take(i as int)),
            v@.len() == 2 * i,
        decreases bytes.len() - i,
    {
        let b = bytes[i];
        v.push(hex_digit_of(b / 16));
        v.push(hex_digit_of(b % 16));
        assert(bytes@.take(i + 1).drop_last() =~= bytes@.take(i as int));
        assert(bytes@.take(i + 1).last() == b);
        i = i + 1;
    }
    assert(bytes@.take(bytes.len() as int) =~= bytes@);
    string_of(&v)
}

/// A new RCON password: sixteen random bytes in hexadecimal.
pub fn generate_rcon_password() -> (r: String)
    ensures
        exists|b: Seq<u8>| b.len() == 16 && r@ == hex_text(b),
        r@.len() == 32,
{
    let bytes = crate::external::random_bytes();
    let s = hex_of(&bytes);
    assert(bytes@.len() == 16);
    s
}

/// Whether a line of `server.properties` sets one of the RCON keys that
/// the setup rewrites.
pub open spec fn is_rcon_line(l: Seq<char>) -> bool {
    is_prefix("enable-rcon"@, l) || is_prefix("rcon.port"@, l) || is_prefix("rcon.password"@, l)
}

/// The lines that do not set an RCON key, in order.
pub open spec fn drop_rcon_lines(ls: Seq<Seq<char>>) -> Seq<Seq<char>>
    decreases ls.len(),
{
    if ls.len() == 0 {
        seq![]
    } else if is_rcon_line(ls[0]) {
        drop_rcon_lines(ls.drop_first())
    } else {
        seq![ls[0]] + drop_rcon_lines(ls.drop_first())
    }
}

/// The three lines that enable RCON on port 25575 with `password`.
pub open spec fn rcon_settings(password: Seq<char>) -> Seq<Seq<char>> {
    seq!["enable-rcon=true"@, "rcon.port=25575"@, "rcon.password="@ + password]
}

/// `server.properties` after the setup enables RCON: the lines that set
/// no RCON key, then the three RCON lines, joined by newlines with a final
/// newline.
pub open spec fn rcon_properties_text(content: Seq<char>, password: Seq<char>) -> Seq<char> {
    crate::text::join_lines(drop_rcon_lines(crate::text::lines(content)) + rcon_settings(password))
        + seq!['\n']
}

/// The content of `server.properties` with RCON enabled on port 25575
/// under `password`.
pub fn rcon_properties(content: &str, password: &str) -> (r: String)
    ensures
        r@ == rcon_properties_text(content@, password@),
{
    let cs = chars_of(content);
    let ls = crate::text::lines_of(&cs);
    let p1 = chars_of("enable-rcon");
    let p2 = chars_of("rcon.port");
    let p3 = chars_of("rcon.password");
    let mut kept: Vec<Vec<char>> = Vec::new();
    let mut i: usize = 0;
    assert(crate::text::views(ls@).skip(0) =~= crate::text::views(ls@));
    while i < ls.len()
        invariant
            i <= ls.len(),
            p1@ == "enable-rcon"@,
            p2@ == "rcon.port"@,
            p3@ == "rcon.password"@,
            crate::text::views(kept@) + drop_rcon_lines(crate::text::views(ls@).skip(i as int))
                == drop_rcon_lines(crate::text::views(ls@)),
        decreases ls.len() - i,
    {
        let ghost rest = crate::text::views(ls@).skip(i as int);
        assert(rest[0] == ls@[i as int]@);
        assert(rest.drop_first() =~= crate::text::views(ls@).skip(i + 1));
        let l = &ls[i];
        if !(crate::text::has_prefix(l, &p1) || crate::text::has_prefix(l, &p2)
            || crate::text::has_prefix(l, &p3)) {
            let ghost k0 = crate::text::views(kept@);
            kept.push(l.clone());
            assert(crate::text::views(kept@) =~= k0.push(l@));
            assert(k0.push(l@) + drop_rcon_lines(crate::text::views(ls@).skip(i + 1)) =~= k0 + (
            seq![l@] + drop_rcon_lines(crate::text::views(ls@).skip(i + 1))));
        }
        i = i + 1;
    }
    assert(crate::text::views(ls@).skip(ls.len() as int) =~= Seq::<Seq<char>>::empty());
    assert(crate::text::views(kept@) + Seq::<Seq<char>>::empty() =~= crate::text::views(kept@));
    let ghost k0 = crate::text::views(kept@);
    kept.push(chars_of("enable-rcon=true"));
    kept.push(chars_of("rcon.port=25575"));
    let mut last = chars_of("rcon.password=");
    extend_chars(&mut last, password);
    kept.push(last);
    assert(crate::text::views(kept@) =~= k0 + rcon_settings(password@));
    let mut out = crate::text::join_lines_of(&kept);
    out.push('\n');
    string_of(&out)
}

} // verus!

verus! {

proof fn lemma_drop_rcon_props(ls: Seq<Seq<char>>)
    ensures
        forall|i: int|
            0 <= i < drop_rcon_lines(ls).len() ==> !is_rcon_line(
                #[trigger] crate::text::strip_cr(drop_rcon_lines(ls)[i]),
            ),
        crate::text::none_holds(ls, '\n') ==> crate::text::none_holds(drop_rcon_lines(ls), '\n'),
    decreases ls.len(),
{
    if ls.len() > 0 {
        lemma_drop_rcon_props(ls.drop_first());
        let d = drop_rcon_lines(ls);
        let r = drop_rcon_lines(ls.drop_first());
        if crate::text::none_holds(ls, '\n') {
            assert forall|i: int| 0 <= i < ls.drop_first().len() implies !(
            #[trigger] ls.drop_first()[i]).contains('\n') by {
                assert(ls.drop_first()[i] == ls[i + 1]);
            }
        }
        if !is_rcon_line(ls[0]) {
            crate::text::lemma_strip_cr_prefix(ls[0], "enable-rcon"@);
            crate::text::lemma_strip_cr_prefix(ls[0], "rcon.port"@);
            crate::text::lemma_strip_cr_prefix(ls[0], "rcon.password"@);
            assert forall|i: int| 0 <= i < d.len() implies !is_rcon_line(
                #[trigger] crate::text::strip_cr(d[i]),
            ) by {
                if i > 0 {
                    assert(d[i] == r[i - 1]);
                }
            }
            if crate::text::none_holds(ls, '\n') {
                assert forall|i: int| 0 <= i < d.len() implies !(#[trigger] d[i]).contains('\n') by {
                    if i > 0 {
                        assert(d[i] == r[i - 1]);
                    } else {
                        assert(d[0] == ls[0]);
                    }
                }
            }
        }
    }
}

/// After the setup rewrites `server.properties`, its lines are the old
/// lines that set no RCON key (less a final `'\r'`), followed by
/// `enable-rcon=true`, `rcon.port=25575` and `rcon.password=<password>`;
/// none of the lines before these sets an RCON key. This holds where the
/// password holds no line break and does not end in `'\r'`.
pub proof fn law_rcon_properties(content: Seq<char>, password: Seq<char>)
    requires
        !password.contains('\n'),
        !(password.len() > 0 && password.last() == '\r'),
    ensures
        ({
            let out = crate::text::lines(rcon_properties_text(content, password));
            let kept = drop_rcon_lines(crate::text::lines(content));
            &&& out == kept.map_values(|l: Seq<char>| crate::text::strip_cr(l)) + rcon_settings(
                password,
            )
            &&& forall|i: int| 0 <= i < kept.len() ==> !is_rcon_line(#[trigger] out[i])
        }),
{
    reveal_strlit("enable-rcon=true");
    reveal_strlit("rcon.port=25575");
    reveal_strlit("rcon.password=");
    let ls = crate::text::lines(content);
    crate::text::lemma_lines_no_newline(content);
    lemma_drop_rcon_props(ls);
    let kept = drop_rcon_lines(ls);
    let all = kept + rcon_settings(password);
    let last = "rcon.password="@ + password;
    assert(!last.contains('\n')) by {
        if last.contains('\n') {
            let k = choose|k: int| 0 <= k < last.len() && last[k] == '\n';
            if k >= 14 {
                assert(password[k - 14] == '\n');
            }
        }
    }
    assert(!"enable-rcon=true"@.contains('\n'));
    assert(!"rcon.port=25575"@.contains('\n'));
    assert(crate::text::none_holds(all, '\n')) by {
        assert forall|i: int| 0 <= i < all.len() implies !(#[trigger] all[i]).contains('\n') by {
            if i < kept.len() {
                assert(all[i] == kept[i]);
            }
        }
    }
    crate::text::lemma_join_terminated(all);
    crate::text::lemma_lines_terminated(all);
    let f = |l: Seq<char>| crate::text::strip_cr(l);
    assert(last.last() == (if password.len() > 0 {
        password.last()
    } else {
        '='
    }));
    assert(crate::text::strip_cr(last) == last);
    assert(crate::text::strip_cr("enable-rcon=true"@) == "enable-rcon=true"@);
    assert(crate::text::strip_cr("rcon.port=25575"@) == "rcon.port=25575"@);
    assert(all.map_values(f) =~= kept.map_values(f) + rcon_settings(password));
}

} // verus!

verus! {

/// What starting all servers does with one of them.
#[derive(PartialEq, Eq, Structural, Debug, Clone, Copy)]
pub enum StartStep {
    /// It is not initialized: it is passed over.
    Skip,
    /// It runs already: this is reported and it is left alone.
    AlreadyRunning,
    /// It is started in its tmux session.
    Launch,
}

/// Only an initialized server is started, and only where it is not
/// running yet.
pub open spec fn start_step_of(state: Seq<char>, running: bool) -> StartStep {
    if state == "initialized"@ {
        if running {
            StartStep::AlreadyRunning
        } else {
            StartStep::Launch
        }
    } else {
        StartStep::Skip
    }
}

/// What starting all servers does with the server in `dir`.
pub fn start_step(dir: &ServerDir) -> (r: StartStep)
    ensures
        r == start_step_of(state_label(*dir), server_pid_of(*dir) is Some),
{
    let st = chars_of(server_state(dir));
    proof {
        reveal_strlit("initialized");
    }
    if crate::text::chars_eq(&st, &chars_of("initialized")) {
        if server_running(dir) {
            StartStep::AlreadyRunning
        } else {
            StartStep::Launch
        }
    } else {
        StartStep::Skip
    }
}

} // verus!

verus! {

/// `c` is a lowercase hexadecimal digit.
pub open spec fn is_hex_char(c: char) -> bool {
    ('0' <= c && c <= '9') || ('a' <= c && c <= 'f')
}

proof fn lemma_hex_chars(b: Seq<u8>)
    ensures
        forall|i: int| 0 <= i < hex_text(b).len() ==> is_hex_char(#[trigger] hex_text(b)[i]),
        hex_text(b).len() == 2 * b.len(),
    decreases b.len(),
{
    if b.len() > 0 {
        lemma_hex_chars(b.drop_last());
        let h = hex_text(b.drop_last());
        let hi = hex_digit(b.last() as nat / 16);
        let lo = hex_digit(b.last() as nat % 16);
        assert(is_hex_char(hi));
        assert(is_hex_char(lo));
        assert forall|i: int| 0 <= i < hex_text(b).len() implies is_hex_char(#[trigger] hex_text(b)[i]) by {
            if i < h.len() {
                assert(hex_text(b)[i] == h[i]);
            }
        }
    }
}

/// What the first-time setup records to enable RCON: the new password,
/// `server.properties` and `.mcserver.conf` as they are written.
pub struct RconSetup {
    pub password: String,
    pub properties: String,
    pub conf: String,
}

/// Enables RCON for the server in `dir`: a new password of sixteen random
/// bytes in hexadecimal is set in `server.properties` (RCON on port 25575)
/// and recorded with the port in `.mcserver.conf`. Nothing is done where
/// `server.properties` could not be read. Afterwards the recorded password
/// is the new one, the recorded port is `25575` and RCON is available.
pub fn configure_rcon(dir: &mut ServerDir) -> (r: Option<RconSetup>)
    ensures
        old(dir).properties is None <==> r is None,
        r is None ==> *final(dir) == *old(dir),
        r matches Some(s) ==> {
            &&& exists|b: Seq<u8>| b.len() == 16 && s.password@ == hex_text(b)
            &&& s.password@.len() == 32
            &&& old(dir).properties matches Some(c) && s.properties@ == rcon_properties_text(
                c@,
                s.password@,
            )
            &&& final(dir).properties == Some(s.properties)
            &&& final(dir).conf == Some(s.conf)
            &&& s.conf@ == crate::config::conf_written(
                Some(crate::config::conf_written(crate::dir::opt_view(old(dir).conf), "rcon_password"@, s.password@)),
                "rcon_port"@,
                "25575"@,
            )
            &&& crate::config::conf_value(Some(s.conf@), "rcon_password"@) == s.password@
            &&& crate::config::conf_value(Some(s.conf@), "rcon_port"@) == "25575"@
            &&& crate::rcon::rcon_ready(*final(dir))
        },
        final(dir).path == old(dir).path,
        final(dir).meta == old(dir).meta,
        final(dir).jar_count == old(dir).jar_count,
        final(dir).start_script == old(dir).start_script,
        final(dir).canonical_path == old(dir).canonical_path,
        final(dir).java_processes == old(dir).java_processes,
{
    let content = match &dir.properties {
        None => {
            return None;
        },
        Some(c) => c.clone(),
    };
    let password = generate_rcon_password();
    let properties = rcon_properties(content.as_str(), password.as_str());
    dir.properties = Some(properties.clone());
    crate::config::write_conf(dir, "rcon_password", password.as_str());
    let conf = crate::config::write_conf(dir, "rcon_port", "25575");
    proof {
        reveal_strlit("rcon_password");
        reveal_strlit("rcon_port");
        reveal_strlit("25575");
        let b = choose|b: Seq<u8>| b.len() == 16 && password@ == hex_text(b);
        lemma_hex_chars(b);
        let p = password@;
        assert(!p.contains('\n')) by {
            if p.contains('\n') {
                let k = choose|k: int| 0 <= k < p.len() && p[k] == '\n';
                assert(is_hex_char(hex_text(b)[k]));
            }
        }
        assert(is_hex_char(p[p.len() - 1]));
        assert(is_hex_char(p[0]));
        assert(!is_prefix(crate::config::keyed("rcon_password"@), p)) by {
            if is_prefix(crate::config::keyed("rcon_password"@), p) {
                assert(p[0] == crate::config::keyed("rcon_password"@)[0]);
            }
        }
        let v2 = "25575"@;
        assert(!v2.contains('\n')) by {
            if v2.contains('\n') {
                let k = choose|k: int| 0 <= k < v2.len() && v2[k] == '\n';
            }
        }
        assert(!is_prefix(crate::config::keyed("rcon_port"@), v2));
        let k1 = "rcon_password"@;
        let k2 = "rcon_port"@;
        assert(k1 != k2) by {
            assert(k1.len() != k2.len());
        }
        assert(!k1.contains('=') && !k1.contains('\n')) by {
            if k1.contains('=') || k1.contains('\n') {
                let k = choose|k: int| 0 <= k < k1.len() && (k1[k] == '=' || k1[k] == '\n');
            }
        }
        assert(!k2.contains('=') && !k2.contains('\n')) by {
            if k2.contains('=') || k2.contains('\n') {
                let k = choose|k: int| 0 <= k < k2.len() && (k2[k] == '=' || k2[k] == '\n');
            }
        }
        crate::config::law_conf_two_writes(crate::dir::opt_view(old(dir).conf), k1, p, k2, v2);
    }
    Some(RconSetup { password, properties, conf })
}

} // verus!

verus! {

/// What starting a server from its menu does.
#[derive(PartialEq, Eq, Structural, Debug, Clone, Copy)]
pub enum StartPlan {
    /// It runs already: this is reported and nothing is started.
    AlreadyRunning,
    /// It is started in its tmux session, after a stale session of that
    /// name is killed and an incomplete world is removed, where there are.
    Launch { kill_session: bool, remove_world: bool },
}

/// The start of a server: nothing where it runs; otherwise a stale tmux
/// session is killed, an incomplete world removed, and it is launched.
pub open spec fn start_plan_of(running: bool, session_exists: bool, world_incomplete: bool) -> StartPlan {
    if running {
        StartPlan::AlreadyRunning
    } else {
        StartPlan::Launch { kill_session: session_exists, remove_world: world_incomplete }
    }
}

/// How the server in `dir` is started from its menu, given whether its
/// tmux session exists and which world files it has.
pub fn start_plan(
    dir: &ServerDir,
    session_exists: bool,
    world_exists: bool,
    level_dat_exists: bool,
    gen_settings_exists: bool,
) -> (r: StartPlan)
    ensures
        r == start_plan_of(
            server_pid_of(*dir) is Some,
            session_exists,
            world_exists && level_dat_exists && !gen_settings_exists,
        ),
{
    if server_running(dir) {
        StartPlan::AlreadyRunning
    } else {
        StartPlan::Launch {
            kill_session: session_exists,
            remove_world: world_incomplete(world_exists, level_dat_exists, gen_settings_exists),
        }
    }
}

/// Whether a force stop is confirmed: the answer is exactly `yes`.
pub fn force_stop_confirmed(answer: &str) -> (r: bool)
    ensures
        r == (answer@ == "yes"@),
{
    crate::text::str_eq(answer, "yes")
}

/// Whether the server in `dir`, named `name`, is deleted: it is not
/// running, its name was typed exactly and the second answer is `yes` in
/// any ASCII case.
pub fn delete_allowed(dir: &ServerDir, typed: &str, name: &str, answer: &str) -> (r: bool)
    ensures
        r == (server_pid_of(*dir) is None && typed@ == name@ && crate::console::yes_ignoring_case(
            trim(answer@),
        )),
{
    !server_running(dir) && crate::text::str_eq(typed, name) && crate::console::confirmed_yes_ascii(
        answer,
    )
}

/// Whether the server in `dir` is renamed to `new_name` (as typed, with
/// spaces made hyphens): it is not running, the name is not empty, and no
/// server of that name exists, so none is ever overwritten.
pub fn rename_allowed(dir: &ServerDir, new_name: &str, taken: bool) -> (r: bool)
    ensures
        r == (server_pid_of(*dir) is None && new_name@.len() > 0 && !taken),
{
    !server_running(dir) && crate::console::name_usable(new_name, taken)
}

} // verus!

verus! {

/// How a directory's state follows from what it holds: with a JAR, a
/// metadata folder and a start script it is `initialized`, and with a JAR
/// but either of those missing it is `fresh`, whether or not it has a
/// `.mcserver.conf`; without a JAR it is `broken` exactly where it keeps a
/// `.mcserver.conf` or a metadata folder, and `empty` otherwise.
pub proof fn law_state_from_files(d: ServerDir, e: ServerDir)
    requires
        e.jar_count == d.jar_count,
        e.meta_dir_exists == d.meta_dir_exists,
        e.start_script_exists == d.start_script_exists,
    ensures
        d.jar_count > 0 && d.meta_dir_exists && d.start_script_exists ==> state_label(d)
            == "initialized"@,
        d.jar_count > 0 && !(d.meta_dir_exists && d.start_script_exists) ==> state_label(d)
            == "fresh"@,
        d.jar_count > 0 ==> state_label(d) == state_label(e),
        d.jar_count == 0 && (d.conf_exists || d.meta_dir_exists) ==> state_label(d) == "broken"@,
        d.jar_count == 0 && !d.conf_exists && !d.meta_dir_exists ==> state_label(d) == "empty"@,
{
}

} // verus!
