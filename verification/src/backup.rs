//! Backups: the archive formats offered, the archive's path, the command
//! that writes it, and how paths are shown to the user.

use vstd::prelude::*;
use crate::dir::ServerDir;
use crate::external::{home_dir, strip_path_prefix, stripped_path};
use crate::paths::path_join;
use crate::rcon::{rcon_available, rcon_ready};
use crate::server::{server_pid_of, server_running};
use crate::text::{chars_of, extend_chars, extend_vec, has_prefix_at, is_prefix, string_of};

verus! {

/// A path as shown to the user: relative to the home directory `home`
/// (`~` for the home directory itself, `~/…` below it), or as it is
/// elsewhere.
pub open spec fn shown_path(path: Seq<char>, home: Seq<char>) -> Seq<char> {
    match stripped_path(path, home) {
        Some(rest) => if rest.len() == 0 {
            seq!['~']
        } else {
            seq!['~', '/'] + rest
        },
        None => path,
    }
}

/// `path` as shown to the user, relative to the home directory `home`.
pub fn display_path_in(path: &str, home: &str) -> (r: String)
    ensures
        r@ == shown_path(path@, home@),
{
    match strip_path_prefix(path, home) {
        Some(rest) => {
            let rv = chars_of(rest.as_str());
            if rv.len() == 0 {
                let mut v: Vec<char> = Vec::new();
                v.push('~');
                assert(rest@ =~= Seq::<char>::empty());
                assert(v@ =~= seq!['~']);
                string_of(&v)
            } else {
                let mut v: Vec<char> = Vec::new();
                v.push('~');
                v.push('/');
                extend_vec(&mut v, &rv);
                assert(v@ =~= seq!['~', '/'] + rest@);
                string_of(&v)
            }
        },
        None => string_of(&chars_of(path)),
    }
}

/// `path` as shown to the user, relative to the home directory of
/// `dirs::home_dir`, or to `/` where it cannot be found (see
/// `display_path_in`).
pub fn display_path(path: &str) -> (r: String)
    ensures
        exists|home: Seq<char>| r@ == shown_path(path@, home),
{
    let home = match home_dir() {
        Some(h) => h,
        None => string_of(&chars_of("/")),
    };
    display_path_in(path, home.as_str())
}

/// The archive formats of the backup menu.
#[derive(PartialEq, Eq, Structural, Debug, Clone, Copy)]
pub enum BackupFormat {
    Zip,
    Tar,
    TarGz,
    TarXz,
    Custom,
}

/// The format that a choice of the backup menu picks: 1 to 5 in the
/// order listed; 6 (quit) and anything else pick none.
pub open spec fn format_of_choice(choice: nat) -> Option<BackupFormat> {
    if choice == 1 {
        Some(BackupFormat::Zip)
    } else if choice == 2 {
        Some(BackupFormat::Tar)
    } else if choice == 3 {
        Some(BackupFormat::TarGz)
    } else if choice == 4 {
        Some(BackupFormat::TarXz)
    } else if choice == 5 {
        Some(BackupFormat::Custom)
    } else {
        None
    }
}

/// The format that a choice of the backup menu picks.
pub fn backup_format(choice: usize) -> (r: Option<BackupFormat>)
    ensures
        r == format_of_choice(choice as nat),
{
    if choice == 1 {
        Some(BackupFormat::Zip)
    } else if choice == 2 {
        Some(BackupFormat::Tar)
    } else if choice == 3 {
        Some(BackupFormat::TarGz)
    } else if choice == 4 {
        Some(BackupFormat::TarXz)
    } else if choice == 5 {
        Some(BackupFormat::Custom)
    } else {
        None
    }
}

/// The extension of an archive format.
pub open spec fn extension_text(f: BackupFormat) -> Seq<char> {
    match f {
        BackupFormat::Zip => "zip"@,
        BackupFormat::Tar => "tar"@,
        BackupFormat::TarGz => "tar.gz"@,
        BackupFormat::TarXz => "tar.xz"@,
        BackupFormat::Custom => seq![],
    }
}

fn extension_of(f: BackupFormat) -> (r: Vec<char>)
    ensures
        r@ == extension_text(f),
{
    match f {
        BackupFormat::Zip => chars_of("zip"),
        BackupFormat::Tar => chars_of("tar"),
        BackupFormat::TarGz => chars_of("tar.gz"),
        BackupFormat::TarXz => chars_of("tar.xz"),
        BackupFormat::Custom => Vec::new(),
    }
}

/// The folder the backups of a server go to: `<backup base>/<name>`.
pub fn backup_folder(backup_base: &str, name: &str) -> (r: String)
    ensures
        r@ == path_join(backup_base@, name@),
{
    crate::paths::join(backup_base, name)
}

/// The file name of an archive before its extension: the server's name,
/// `_` and the time stamp.
pub open spec fn archive_stem_text(name: Seq<char>, stamp: Seq<char>) -> Seq<char> {
    name + seq!['_'] + stamp
}

/// The path of the archive for a backup in `folder` of server `name` made
/// at `stamp`, in format `f`: `<folder>/<name>_<stamp>.<ext>`, so that each
/// time stamp gives a file of its own.
pub fn archive_path(folder: &str, name: &str, stamp: &str, f: BackupFormat) -> (r: String)
    requires
        f != BackupFormat::Custom,
    ensures
        r@ == path_join(folder@, archive_stem_text(name@, stamp@) + seq!['.'] + extension_text(f)),
{
    let mut n = chars_of(name);
    n.push('_');
    extend_chars(&mut n, stamp);
    n.push('.');
    let e = extension_of(f);
    extend_vec(&mut n, &e);
    let ns = string_of(&n);
    assert(ns@ =~= archive_stem_text(name@, stamp@) + seq!['.'] + extension_text(f));
    crate::paths::join(folder, ns.as_str())
}

/// A program to run and its arguments.
pub struct Command {
    pub program: String,
    pub args: Vec<String>,
}

/// The views of a list of strings.
pub open spec fn string_views(v: Seq<String>) -> Seq<Seq<char>> {
    v.map_values(|s: String| s@)
}

/// The program and arguments that write an archive in format `f` to
/// `archive`, run in the server's directory: `zip` leaves out `backups/`
/// and `logs/`, `tar` excludes them.
pub open spec fn archive_command(f: BackupFormat, archive: Seq<char>) -> (Seq<char>, Seq<Seq<char>>) {
    match f {
        BackupFormat::Zip => ("zip"@, seq!["-r"@, archive, "."@, "-x"@, "backups/*"@, "logs/*"@]),
        BackupFormat::Tar => ("tar"@, seq!["-cf"@, archive, "--exclude=backups"@, "--exclude=logs"@, "."@]),
        BackupFormat::TarGz => ("tar"@, seq!["-czf"@, archive, "--exclude=backups"@, "--exclude=logs"@, "."@]),
        BackupFormat::TarXz => ("tar"@, seq!["-cJf"@, archive, "--exclude=backups"@, "--exclude=logs"@, "."@]),
        BackupFormat::Custom => ("sh"@, seq!["-c"@, archive]),
    }
}

fn s(t: &str) -> (r: String)
    ensures
        r@ == t@,
{
    string_of(&chars_of(t))
}

/// The command that writes the archive (for the custom format, the
/// command line given is run by `sh -c`).
pub fn backup_command(f: BackupFormat, archive: &str) -> (r: Command)
    ensures
        (r.program@, string_views(r.args@)) == archive_command(f, archive@),
{
    let mut args: Vec<String> = Vec::new();
    let program = match f {
        BackupFormat::Zip => {
            args.push(s("-r"));
            args.push(s(archive));
            args.push(s("."));
            args.push(s("-x"));
            args.push(s("backups/*"));
            args.push(s("logs/*"));
            s("zip")
        },
        BackupFormat::Tar | BackupFormat::TarGz | BackupFormat::TarXz => {
            args.push(
                match f {
                    BackupFormat::Tar => s("-cf"),
                    BackupFormat::TarGz => s("-czf"),
                    _ => s("-cJf"),
                },
            );
            args.push(s(archive));
            args.push(s("--exclude=backups"));
            args.push(s("--exclude=logs"));
            args.push(s("."));
            s("tar")
        },
        BackupFormat::Custom => {
            args.push(s("-c"));
            args.push(s(archive));
            s("sh")
        },
    };
    assert(string_views(args@) =~= archive_command(f, archive@).1);
    Command { program, args }
}

/// `s` with each occurrence of the non-empty `pat` replaced by `rep`,
/// scanning left to right (`str::replace`).
pub open spec fn replace_all(s: Seq<char>, pat: Seq<char>, rep: Seq<char>) -> Seq<char>
    decreases s.len(),
{
    if s.len() == 0 {
        seq![]
    } else if pat.len() > 0 && is_prefix(pat, s) {
        rep + replace_all(s.skip(pat.len() as int), pat, rep)
    } else {
        seq![s[0]] + replace_all(s.drop_first(), pat, rep)
    }
}

/// `s` with each occurrence of `pat` replaced by `rep`.
pub fn replace_text(s: &str, pat: &str, rep: &str) -> (r: String)
    requires
        pat@.len() > 0,
    ensures
        r@ == replace_all(s@, pat@, rep@),
{
    let v = chars_of(s);
    let p = chars_of(pat);
    let rv = chars_of(rep);
    let mut out: Vec<char> = Vec::new();
    let mut i: usize = 0;
    assert(v@.skip(0) =~= v@);
    while i < v.len()
        invariant
            i <= v.len(),
            p@ == pat@,
            rv@ == rep@,
            p@.len() > 0,
            out@ + replace_all(v@.skip(i as int), p@, rv@) == replace_all(s@, pat@, rep@),
            v@ == s@,
        decreases v.len() - i,
    {
        let ghost o = out@;
        let ghost rest = v@.skip(i as int);
        if has_prefix_at(&v, i, &p) {
            extend_vec(&mut out, &rv);
            assert(rest.skip(p.len() as int) =~= v@.skip(i + p.len()));
            assert(o + rv@ + replace_all(v@.skip(i + p.len()), p@, rv@) =~= o + (rv@ + replace_all(
                v@.skip(i + p.len()),
                p@,
                rv@,
            )));
            i = i + p.len();
        } else {
            out.push(v[i]);
            assert(rest[0] == v@[i as int]);
            assert(rest.drop_first() =~= v@.skip(i + 1));
            assert(o.push(v@[i as int]) + replace_all(v@.skip(i + 1), p@, rv@) =~= o + (seq![
                v@[i as int],
            ] + replace_all(v@.skip(i + 1), p@, rv@)));
            i = i + 1;
        }
    }
    assert(v@.skip(i as int) =~= Seq::<char>::empty());
    assert(out@ + Seq::<char>::empty() =~= out@);
    string_of(&out)
}

/// A custom backup command with `{src}` made the server's shown path and
/// `{dest}` the backup folder's shown path.
pub open spec fn custom_command_text(cmd: Seq<char>, src: Seq<char>, dest: Seq<char>) -> Seq<char> {
    replace_all(replace_all(cmd, "{src}"@, src), "{dest}"@, dest)
}

/// A custom backup command with its placeholders filled in.
pub fn custom_backup_command(cmd: &str, src: &str, dest: &str) -> (r: String)
    ensures
        r@ == custom_command_text(cmd@, src@, dest@),
{
    proof {
        reveal_strlit("{src}");
        reveal_strlit("{dest}");
    }
    let a = replace_text(cmd, "{src}", src);
    replace_text(a.as_str(), "{dest}", dest)
}

/// Whether autosaving is paused over RCON around the backup: the server
/// runs and RCON is configured.
pub fn pause_autosave(dir: &ServerDir) -> (r: bool)
    ensures
        r == (server_pid_of(*dir) is Some && rcon_ready(*dir)),
{
    server_running(dir) && rcon_available(dir)
}

} // verus!

verus! {

/// `s` ends with `t`.
pub open spec fn ends_with(s: Seq<char>, t: Seq<char>) -> bool {
    s.len() >= t.len() && s.skip(s.len() - t.len()) == t
}

fn ends_with_of(s: &Vec<char>, t: &str) -> (r: bool)
    ensures
        r == ends_with(s@, t@),
{
    let tv = chars_of(t);
    if s.len() < tv.len() {
        return false;
    }
    let r = has_prefix_at(s, s.len() - tv.len(), &tv);
    proof {
        let k = s@.skip(s.len() - tv.len());
        assert(k.len() == tv@.len());
        assert(k.take(tv@.len() as int) =~= k);
    }
    r
}

/// The command that unpacks the archive `file` (at `archive`) into the
/// server's directory `dir`, chosen by its extension; none for a file of
/// no known archive format.
pub open spec fn restore_command_of(file: Seq<char>, archive: Seq<char>, dir: Seq<char>) -> Option<
    (Seq<char>, Seq<Seq<char>>),
> {
    if ends_with(file, ".zip"@) {
        Some(("unzip"@, seq!["-o"@, archive, "-d"@, dir]))
    } else if ends_with(file, ".tar"@) {
        Some(("tar"@, seq!["-xf"@, archive, "-C"@, dir]))
    } else if ends_with(file, ".tar.gz"@) {
        Some(("tar"@, seq!["-xzf"@, archive, "-C"@, dir]))
    } else if ends_with(file, ".tar.xz"@) {
        Some(("tar"@, seq!["-xJf"@, archive, "-C"@, dir]))
    } else {
        None
    }
}

/// The command that restores the backup `file` (stored at `archive`) into
/// the server directory `dir`.
pub fn restore_command(file: &str, archive: &str, dir: &str) -> (r: Option<Command>)
    ensures
        match r {
            Some(c) => restore_command_of(file@, archive@, dir@) == Some(
                (c.program@, string_views(c.args@)),
            ),
            None => restore_command_of(file@, archive@, dir@) is None,
        },
{
    let f = chars_of(file);
    let (program, flag, to) = if ends_with_of(&f, ".zip") {
        (s("unzip"), s("-o"), s("-d"))
    } else if ends_with_of(&f, ".tar") {
        (s("tar"), s("-xf"), s("-C"))
    } else if ends_with_of(&f, ".tar.gz") {
        (s("tar"), s("-xzf"), s("-C"))
    } else if ends_with_of(&f, ".tar.xz") {
        (s("tar"), s("-xJf"), s("-C"))
    } else {
        return None;
    };
    let mut args: Vec<String> = Vec::new();
    args.push(flag);
    args.push(s(archive));
    args.push(to);
    args.push(s(dir));
    proof {
        reveal_strlit(".zip");
        reveal_strlit(".tar");
        reveal_strlit(".tar.gz");
        reveal_strlit(".tar.xz");
        let rc = restore_command_of(file@, archive@, dir@);
        assert(rc is Some);
        let (prog, want) = rc->0;
        assert(string_views(args@) =~= want);
    }
    Some(Command { program, args })
}

/// The cron schedule that an entry of the scheduling menu picks: hourly,
/// daily at 03:00, weekly on Sunday at 03:00.
pub open spec fn schedule_text(choice: nat) -> Option<Seq<char>> {
    if choice == 1 {
        Some("0 * * * *"@)
    } else if choice == 2 {
        Some("0 3 * * *"@)
    } else if choice == 3 {
        Some("0 3 * * 0"@)
    } else {
        None
    }
}

/// The cron schedule picked by a choice of the scheduling menu.
pub fn backup_schedule(choice: usize) -> (r: Option<&'static str>)
    ensures
        match r {
            Some(t) => schedule_text(choice as nat) == Some(t@),
            None => schedule_text(choice as nat) is None,
        },
{
    if choice == 1 {
        Some("0 * * * *")
    } else if choice == 2 {
        Some("0 3 * * *")
    } else if choice == 3 {
        Some("0 3 * * 0")
    } else {
        None
    }
}

/// The comment that marks the crontab line of a server's scheduled backups.
pub open spec fn cron_marker(dir: Seq<char>) -> Seq<char> {
    " # fastmc-backup "@ + dir
}

/// The crontab line that backs the server in `dir` up on `schedule` in
/// format `format` (a number of the backup menu) by running `program`.
pub open spec fn cron_line_text(schedule: Seq<char>, program: Seq<char>, dir: Seq<char>, format: nat) -> Seq<
    char,
> {
    schedule + " '"@ + crate::server::shell_quoted(program) + "' backup '"@
        + crate::server::shell_quoted(dir) + "' "@ + crate::text::decimal(format) + cron_marker(dir)
}

/// The crontab lines that are not the scheduled backups of `dir`.
pub open spec fn other_cron_lines(ls: Seq<Seq<char>>, dir: Seq<char>) -> Seq<Seq<char>>
    decreases ls.len(),
{
    if ls.len() == 0 {
        seq![]
    } else {
        let rest = other_cron_lines(ls.drop_last(), dir);
        if ends_with(ls.last(), cron_marker(dir)) {
            rest
        } else {
            rest.push(ls.last())
        }
    }
}

/// A crontab with the scheduled backups of `dir` replaced by `line` (none
/// where `line` is absent): the other lines in order, then `line`, each
/// ending in a newline.
pub open spec fn crontab_text(existing: Seq<char>, dir: Seq<char>, line: Option<Seq<char>>) -> Seq<char> {
    let kept = other_cron_lines(crate::text::lines(existing), dir);
    crate::text::terminated(
        match line {
            Some(l) => kept.push(l),
            None => kept,
        },
    )
}

/// The crontab line for the scheduled backups of `dir` (see
/// `cron_line_text`).
pub fn cron_line(schedule: &str, program: &str, dir: &str, format: u64) -> (r: String)
    ensures
        r@ == cron_line_text(schedule@, program@, dir@, format as nat),
{
    let mut v = chars_of(schedule);
    extend_chars(&mut v, " '");
    extend_vec(&mut v, &crate::server::shell_quote(program));
    extend_chars(&mut v, "' backup '");
    extend_vec(&mut v, &crate::server::shell_quote(dir));
    extend_chars(&mut v, "' ");
    extend_vec(&mut v, &crate::text::decimal_of(format));
    extend_chars(&mut v, " # fastmc-backup ");
    extend_chars(&mut v, dir);
    proof {
        reveal_strlit(" # fastmc-backup ");
    }
    assert(v@ =~= cron_line_text(schedule@, program@, dir@, format as nat));
    string_of(&v)
}

/// The user's crontab `existing` with the scheduled backups of `dir`
/// replaced by `line`, or removed where `line` is absent.
pub fn crontab_with(existing: &str, dir: &str, line: Option<String>) -> (r: String)
    ensures
        r@ == crontab_text(existing@, dir@, crate::dir::opt_view(line)),
{
    let ls = crate::text::lines_of(&chars_of(existing));
    let mut marker = chars_of(" # fastmc-backup ");
    extend_chars(&mut marker, dir);
    proof {
        reveal_strlit(" # fastmc-backup ");
    }
    assert(marker@ =~= cron_marker(dir@));
    let ghost all = crate::text::views(ls@);
    let mut kept: Vec<Vec<char>> = Vec::new();
    let mut i: usize = 0;
    while i < ls.len()
        invariant
            i <= ls.len(),
            all == crate::text::views(ls@),
            marker@ == cron_marker(dir@),
            crate::text::views(kept@) == other_cron_lines(all.take(i as int), dir@),
        decreases ls.len() - i,
    {
        assert(all.take(i + 1).drop_last() =~= all.take(i as int));
        assert(all.take(i + 1).last() == ls@[i as int]@);
        let t = &ls[i];
        let ends = if t.len() >= marker.len() {
            let e = has_prefix_at(t, t.len() - marker.len(), &marker);
            proof {
                let k = t@.skip(t.len() - marker.len());
                assert(k.take(marker@.len() as int) =~= k);
            }
            e
        } else {
            false
        };
        if !ends {
            let ghost before = kept@;
            kept.push(t.clone());
            assert(crate::text::views(kept@) =~= crate::text::views(before).push(t@));
        }
        i = i + 1;
    }
    assert(all.take(ls.len() as int) =~= all);
    match line {
        Some(l) => {
            let ghost before = kept@;
            let lv = chars_of(l.as_str());
            kept.push(lv);
            assert(crate::text::views(kept@) =~= crate::text::views(before).push(l@));
        },
        None => {},
    }
    string_of(&crate::text::terminated_of(&kept))
}

} // verus!

verus! {

/// A step of a backup run.
#[derive(PartialEq, Eq, Structural, Debug, Clone, Copy)]
pub enum BackupStep {
    /// Send `save-all` over RCON.
    SaveAll,
    /// Wait a second for the save to finish.
    Pause,
    /// Send `save-off` over RCON.
    SaveOff,
    /// Write the archive.
    Archive,
    /// Send `save-on` over RCON.
    SaveOn,
    /// Remove the archives beyond those kept.
    Prune,
}

/// The steps of a backup run: where autosave is paused, the world is saved
/// and saving switched off before the archive is written and switched back
/// on after it; old archives are pruned last.
pub open spec fn backup_steps(pause: bool) -> Seq<BackupStep> {
    if pause {
        seq![
            BackupStep::SaveAll,
            BackupStep::Pause,
            BackupStep::SaveOff,
            BackupStep::Archive,
            BackupStep::SaveOn,
            BackupStep::Prune,
        ]
    } else {
        seq![BackupStep::Archive, BackupStep::Prune]
    }
}

/// The steps of a backup run of the server in `dir`.
pub fn backup_plan(dir: &ServerDir) -> (r: Vec<BackupStep>)
    ensures
        r@ == backup_steps(server_pid_of(*dir) is Some && rcon_ready(*dir)),
{
    let mut v: Vec<BackupStep> = Vec::new();
    if pause_autosave(dir) {
        v.push(BackupStep::SaveAll);
        v.push(BackupStep::Pause);
        v.push(BackupStep::SaveOff);
        v.push(BackupStep::Archive);
        v.push(BackupStep::SaveOn);
    } else {
        v.push(BackupStep::Archive);
    }
    v.push(BackupStep::Prune);
    assert(v@ =~= backup_steps(server_pid_of(*dir) is Some && rcon_ready(*dir)));
    v
}

} // verus!

verus! {

/// Every archive format but the custom command archives the whole server
/// directory: the archive path is the second argument and `.` (the server
/// directory) is an operand; `zip` recurses and leaves out `backups/` and
/// `logs/`; `tar` creates the archive (plain, gzip or xz as the format
/// says), excludes `backups` and `logs`, and ends with `.`.
pub proof fn law_archive_covers_server_dir(f: BackupFormat, archive: Seq<char>)
    requires
        f != BackupFormat::Custom,
    ensures
        ({
            let (program, args) = archive_command(f, archive);
            &&& args[1] == archive
            &&& args.contains("."@)
            &&& f == BackupFormat::Zip ==> program == "zip"@ && args.len() == 6 && args[0] == "-r"@
                && args[2] == "."@ && args[3] == "-x"@ && args[4] == "backups/*"@ && args[5]
                == "logs/*"@
            &&& f != BackupFormat::Zip ==> program == "tar"@ && args.len() == 5 && args[2]
                == "--exclude=backups"@ && args[3] == "--exclude=logs"@ && args[4] == "."@
            &&& f == BackupFormat::Tar ==> args[0] == "-cf"@
            &&& f == BackupFormat::TarGz ==> args[0] == "-czf"@
            &&& f == BackupFormat::TarXz ==> args[0] == "-cJf"@
        }),
{
    let (program, args) = archive_command(f, archive);
    if f == BackupFormat::Zip {
        assert(args[2] == "."@);
    } else {
        assert(args[4] == "."@);
    }
}

} // verus!

verus! {

/// A backup is restored with the program and mode that undo its format:
/// an archive named `<stem>.<ext>` for a zip is unpacked by `unzip -o`,
/// and for tar, tar.gz and tar.xz by `tar` extracting with no, gzip or xz
/// compression; the archive is the second argument and the server
/// directory the last.
pub proof fn law_restore_undoes_backup(
    f: BackupFormat,
    stem: Seq<char>,
    archive: Seq<char>,
    dir: Seq<char>,
)
    requires
        f != BackupFormat::Custom,
    ensures
        ({
            let file = stem + seq!['.'] + extension_text(f);
            let r = restore_command_of(file, archive, dir);
            &&& r is Some
            &&& r matches Some(c) ==> {
                &&& c.1.len() == 4
                &&& c.1[1] == archive
                &&& c.1[3] == dir
                &&& f == BackupFormat::Zip ==> c.0 == "unzip"@ && c.1[0] == "-o"@
                &&& f == BackupFormat::Tar ==> c.0 == "tar"@ && c.1[0] == "-xf"@
                &&& f == BackupFormat::TarGz ==> c.0 == "tar"@ && c.1[0] == "-xzf"@
                &&& f == BackupFormat::TarXz ==> c.0 == "tar"@ && c.1[0] == "-xJf"@
            }
        }),
{
    reveal_strlit("zip");
    reveal_strlit("tar");
    reveal_strlit("tar.gz");
    reveal_strlit("tar.xz");
    reveal_strlit(".zip");
    reveal_strlit(".tar");
    reveal_strlit(".tar.gz");
    reveal_strlit(".tar.xz");
    let e = seq!['.'] + extension_text(f);
    let file = stem + seq!['.'] + extension_text(f);
    assert(file =~= stem + e);
    let n = file.len();
    assert forall|t: Seq<char>| t.len() <= e.len() && #[trigger] ends_with(file, t) implies ends_with(
        e,
        t,
    ) by {
        assert(file.skip(n - t.len()) =~= e.skip(e.len() - t.len()));
    }
    assert forall|t: Seq<char>| t.len() <= e.len() && ends_with(e, t) implies #[trigger] ends_with(
        file,
        t,
    ) by {
        assert(file.skip(n - t.len()) =~= e.skip(e.len() - t.len()));
    }
    let z = ".zip"@;
    let t1 = ".tar"@;
    let g = ".tar.gz"@;
    let x = ".tar.xz"@;
    match f {
        BackupFormat::Zip => {
            assert(e =~= z);
            assert(ends_with(e, z)) by {
                assert(e.skip(0) =~= e);
            }
            assert(ends_with(file, z));
            assert(restore_command_of(file, archive, dir) == Some(
                ("unzip"@, seq!["-o"@, archive, "-d"@, dir]),
            ));
        },
        BackupFormat::Tar => {
            assert(e =~= t1);
            assert(ends_with(e, t1)) by {
                assert(e.skip(0) =~= e);
            }
            assert(!ends_with(file, z)) by {
                if ends_with(file, z) {
                    assert(file.skip(n - 4)[3] == file[n - 1]);
                }
            }
        },
        BackupFormat::TarGz => {
            assert(e =~= g);
            assert(ends_with(e, g)) by {
                assert(e.skip(0) =~= e);
            }
            assert(!ends_with(file, z)) by {
                if ends_with(file, z) {
                    assert(file.skip(n - 4)[3] == file[n - 1]);
                }
            }
            assert(!ends_with(file, t1)) by {
                if ends_with(file, t1) {
                    assert(file.skip(n - 4)[3] == file[n - 1]);
                }
            }
        },
        _ => {
            assert(e =~= x);
            assert(ends_with(e, x)) by {
                assert(e.skip(0) =~= e);
            }
            assert(!ends_with(file, z)) by {
                if ends_with(file, z) {
                    assert(file.skip(n - 4)[3] == file[n - 1]);
                }
            }
            assert(!ends_with(file, t1)) by {
                if ends_with(file, t1) {
                    assert(file.skip(n - 4)[3] == file[n - 1]);
                }
            }
            assert(!ends_with(file, g)) by {
                if ends_with(file, g) {
                    assert(file.skip(n - 7)[5] == file[n - 2]);
                }
            }
        },
    }
}

} // verus!

verus! {

/// The backup menu: 1 zip, 2 tar, 3 tar.gz, 4 tar.xz, 5 a custom command;
/// 6 (quit) and every other number make no backup.
pub proof fn law_backup_menu(choice: nat)
    ensures
        choice == 1 <==> format_of_choice(choice) == Some(BackupFormat::Zip),
        choice == 2 <==> format_of_choice(choice) == Some(BackupFormat::Tar),
        choice == 3 <==> format_of_choice(choice) == Some(BackupFormat::TarGz),
        choice == 4 <==> format_of_choice(choice) == Some(BackupFormat::TarXz),
        choice == 5 <==> format_of_choice(choice) == Some(BackupFormat::Custom),
        (choice == 0 || choice >= 6) <==> format_of_choice(choice) is None,
{
}

} // verus!
