//! What the menus make of what the user types: cleaned input lines,
//! numbers, yes/no answers, menu choices, names and paths.

use vstd::prelude::*;
use crate::dir::opt_view;
use crate::external::{expand_tilde, home_dir, lowercased, tilde_expansion, to_lowercase};
use crate::text::{chars_of, string_of, string_of_range, trim, trim_bounds, trim_str};

verus! {

/// `c` is an ASCII letter.
pub open spec fn is_ascii_letter(c: char) -> bool {
    ('a' <= c && c <= 'z') || ('A' <= c && c <= 'Z')
}

/// `c` is an ASCII digit.
pub open spec fn is_ascii_digit(c: char) -> bool {
    '0' <= c && c <= '9'
}

/// How many characters of `s` from `from` on are digits or `';'`.
pub open spec fn param_run(s: Seq<char>, from: int) -> nat
    decreases s.len() - from,
{
    if from < 0 || from >= s.len() {
        0
    } else if is_ascii_digit(s[from]) || s[from] == ';' {
        1 + param_run(s, from + 1)
    } else {
        0
    }
}

/// The length of the ANSI escape sequence `ESC [ [0-9;]* [A-Za-z]` at the
/// start of `s`, or 0 where none starts there.
pub open spec fn escape_len(s: Seq<char>) -> nat {
    if s.len() >= 2 && s[0] == '\u{1b}' && s[1] == '[' {
        let k = param_run(s, 2);
        if 2 + k < s.len() && is_ascii_letter(s[2 + k as int]) {
            3 + k
        } else {
            0
        }
    } else {
        0
    }
}

/// `s` with every ANSI escape sequence removed, scanning left to right as
/// a regex replacement of `\x1b\[[0-9;]*[A-Za-z]` by nothing does.
pub open spec fn strip_ansi(s: Seq<char>) -> Seq<char>
    decreases s.len(),
{
    if s.len() == 0 {
        seq![]
    } else if escape_len(s) > 0 {
        strip_ansi(s.skip(escape_len(s) as int))
    } else {
        seq![s[0]] + strip_ansi(s.drop_first())
    }
}

proof fn lemma_param_run_shift(s: Seq<char>, p: int, from: int)
    requires
        0 <= p <= s.len(),
        from >= 0,
    ensures
        param_run(s.skip(p), from) == param_run(s, p + from),
    decreases s.len() - p - from,
{
    if p + from < s.len() {
        assert(s.skip(p)[from] == s[p + from]);
        lemma_param_run_shift(s, p, from + 1);
    }
}

proof fn lemma_param_run_bound(s: Seq<char>, from: int)
    requires
        0 <= from,
    ensures
        from + param_run(s, from) <= (if from <= s.len() {
            s.len() as int
        } else {
            from
        }),
        forall|k: int|
            from <= k < from + param_run(s, from) ==> is_ascii_digit(#[trigger] s[k]) || s[k]
                == ';',
        from + param_run(s, from) < s.len() ==> !(is_ascii_digit(s[from + param_run(s, from)])
            || s[from + param_run(s, from)] == ';'),
    decreases s.len() - from,
{
    if from < s.len() && (is_ascii_digit(s[from]) || s[from] == ';') {
        lemma_param_run_bound(s, from + 1);
    }
}

/// The length of the escape sequence at `v[p..]`, or 0.
fn escape_len_at(v: &Vec<char>, p: usize) -> (r: usize)
    requires
        p <= v.len(),
    ensures
        r == escape_len(v@.skip(p as int)),
        r <= v.len() - p,
{
    let ghost s = v@.skip(p as int);
    if v.len() - p >= 2 && v[p] == '\u{1b}' && v[p + 1] == '[' {
        let mut q = p + 2;
        while q < v.len() && (('0' <= v[q] && v[q] <= '9') || v[q] == ';')
            invariant
                p + 2 <= q <= v.len(),
                param_run(v@, p + 2) == (q - p - 2) + param_run(v@, q as int),
            decreases v.len() - q,
        {
            q = q + 1;
        }
        proof {
            lemma_param_run_shift(v@, p as int, 2);
            assert(s[0] == v@[p as int]);
            assert(s[1] == v@[p + 1]);
        }
        if q < v.len() && (('a' <= v[q] && v[q] <= 'z') || ('A' <= v[q] && v[q] <= 'Z')) {
            assert(s[2 + param_run(s, 2) as int] == v@[q as int]);
            q + 1 - p
        } else {
            proof {
                if 2 + param_run(s, 2) < s.len() {
                    assert(s[2 + param_run(s, 2) as int] == v@[q as int]);
                }
            }
            0
        }
    } else {
        proof {
            if s.len() >= 2 {
                assert(s[0] == v@[p as int]);
                assert(s[1] == v@[p + 1]);
            }
        }
        0
    }
}

/// `s` with its ANSI escape sequences removed.
pub fn strip_ansi_of(s: &str) -> (r: String)
    ensures
        r@ == strip_ansi(s@),
{
    let v = chars_of(s);
    let mut out: Vec<char> = Vec::new();
    let mut p: usize = 0;
    assert(v@.skip(0) =~= v@);
    while p < v.len()
        invariant
            p <= v.len(),
            v@ == s@,
            out@ + strip_ansi(v@.skip(p as int)) == strip_ansi(s@),
        decreases v.len() - p,
    {
        let e = escape_len_at(&v, p);
        let ghost rest = v@.skip(p as int);
        if e > 0 {
            assert(rest.skip(e as int) =~= v@.skip(p + e));
            p = p + e;
        } else {
            assert(rest.drop_first() =~= v@.skip(p + 1));
            assert(rest[0] == v@[p as int]);
            let ghost o = out@;
            out.push(v[p]);
            assert(o.push(v@[p as int]) + strip_ansi(v@.skip(p + 1)) =~= o + (seq![v@[p as int]]
                + strip_ansi(v@.skip(p + 1))));
            p = p + 1;
        }
    }
    assert(v@.skip(p as int) =~= Seq::<char>::empty());
    assert(out@ + Seq::<char>::empty() =~= out@);
    string_of(&out)
}

/// What a prompt makes of a line read from the terminal: the line less
/// surrounding whitespace, then less its ANSI escape sequences.
pub fn clean_input(line: &str) -> (r: String)
    ensures
        r@ == strip_ansi(trim(line@)),
{
    let t = trim_str(line);
    strip_ansi_of(t.as_str())
}

/// The value of a run of ASCII digits.
pub open spec fn digits_value(d: Seq<char>) -> nat
    decreases d.len(),
{
    if d.len() == 0 {
        0
    } else {
        digits_value(d.drop_last()) * 10 + (d.last() as nat - '0' as nat) as nat
    }
}

/// Every character of `d` is an ASCII digit.
pub open spec fn all_digits(d: Seq<char>) -> bool {
    forall|i: int| 0 <= i < d.len() ==> is_ascii_digit(#[trigger] d[i])
}

/// What `str::parse::<usize>` gives: an optional `+` and then one or more
/// ASCII digits whose value fits in `usize`; otherwise nothing.
pub open spec fn parse_usize(s: Seq<char>) -> Option<usize> {
    let d = if s.len() > 0 && s[0] == '+' {
        s.drop_first()
    } else {
        s
    };
    if d.len() > 0 && all_digits(d) && digits_value(d) <= usize::MAX {
        Some(digits_value(d) as usize)
    } else {
        None
    }
}

proof fn lemma_digits_value_grows(d: Seq<char>, k: int)
    requires
        0 <= k <= d.len(),
        all_digits(d),
    ensures
        digits_value(d.take(k)) <= digits_value(d),
    decreases d.len() - k,
{
    if k < d.len() {
        lemma_digits_value_grows(d, k + 1);
        assert(d.take(k + 1).drop_last() =~= d.take(k));
        assert(is_ascii_digit(d[k]));
        assert(d.take(k + 1).last() == d[k]);
    } else {
        assert(d.take(k) =~= d);
    }
}

/// `s` parsed as an unsigned number (`str::parse::<usize>`).
pub fn parse_usize_of(s: &str) -> (r: Option<usize>)
    ensures
        r == parse_usize(s@),
{
    let v = chars_of(s);
    let mut start: usize = 0;
    if v.len() > 0 && v[0] == '+' {
        start = 1;
    }
    let ghost d = if s@.len() > 0 && s@[0] == '+' {
        s@.drop_first()
    } else {
        s@
    };
    assert(d =~= v@.skip(start as int));
    if start >= v.len() {
        return None;
    }
    let mut acc: usize = 0;
    let mut i = start;
    while i < v.len()
        invariant
            start < v.len(),
            start <= i <= v.len(),
            v@ == s@,
            start == 1 <==> (s@.len() > 0 && s@[0] == '+'),
            d == (if s@.len() > 0 && s@[0] == '+' {
                s@.drop_first()
            } else {
                s@
            }),
            d == v@.skip(start as int),
            forall|k: int| start <= k < i ==> is_ascii_digit(#[trigger] v@[k]),
            acc as nat == digits_value(d.take(i - start)),
        decreases v.len() - i,
    {
        let c = v[i];
        if !('0' <= c && c <= '9') {
            assert(!all_digits(d)) by {
                assert(d[i - start] == c);
            }
            return None;
        }
        let dv = (c as u32 - '0' as u32) as usize;
        assert(d.take(i + 1 - start).drop_last() =~= d.take(i - start));
        assert(d.take(i + 1 - start).last() == c);
        if acc > (usize::MAX - dv) / 10 {
            proof {
                assert(forall|k: int| 0 <= k < i + 1 - start ==> is_ascii_digit(
                    #[trigger] d.take(i + 1 - start)[k],
                )) by {
                    assert forall|k: int| 0 <= k < i + 1 - start implies is_ascii_digit(
                        #[trigger] d.take(i + 1 - start)[k],
                    ) by {
                        assert(d.take(i + 1 - start)[k] == v@[start + k]);
                    }
                }
                assert(acc * 10 + dv > usize::MAX) by (nonlinear_arith)
                    requires
                        acc > (usize::MAX - dv) / 10,
                        dv <= 9,
                ;
                if all_digits(d) {
                    lemma_digits_value_grows(d, i + 1 - start);
                }
            }
            return None;
        }
        assert(acc * 10 + dv <= usize::MAX) by (nonlinear_arith)
            requires
                acc <= (usize::MAX - dv) / 10,
                dv <= 9,
        ;
        acc = acc * 10 + dv;
        i = i + 1;
    }
    assert(d.take(v.len() - start) =~= d);
    assert(all_digits(d)) by {
        assert forall|k: int| 0 <= k < d.len() implies is_ascii_digit(#[trigger] d[k]) by {
            assert(d[k] == v@[start + k]);
        }
    }
    Some(acc)
}

/// What `str::parse::<u64>` gives: an optional `+` and then one or more
/// ASCII digits whose value fits in `u64`; otherwise nothing.
pub open spec fn parse_u64(s: Seq<char>) -> Option<u64> {
    let d = if s.len() > 0 && s[0] == '+' {
        s.drop_first()
    } else {
        s
    };
    if d.len() > 0 && all_digits(d) && digits_value(d) <= u64::MAX {
        Some(digits_value(d) as u64)
    } else {
        None
    }
}

/// `s` parsed as an unsigned number (`str::parse::<u64>`).
pub fn parse_u64_of(s: &str) -> (r: Option<u64>)
    ensures
        r == parse_u64(s@),
{
    let v = chars_of(s);
    let mut start: usize = 0;
    if v.len() > 0 && v[0] == '+' {
        start = 1;
    }
    let ghost d = if s@.len() > 0 && s@[0] == '+' {
        s@.drop_first()
    } else {
        s@
    };
    assert(d =~= v@.skip(start as int));
    if start >= v.len() {
        return None;
    }
    let mut acc: u64 = 0;
    let mut i = start;
    while i < v.len()
        invariant
            start < v.len(),
            start <= i <= v.len(),
            v@ == s@,
            start == 1 <==> (s@.len() > 0 && s@[0] == '+'),
            d == (if s@.len() > 0 && s@[0] == '+' {
                s@.drop_first()
            } else {
                s@
            }),
            d == v@.skip(start as int),
            forall|k: int| start <= k < i ==> is_ascii_digit(#[trigger] v@[k]),
            acc as nat == digits_value(d.take(i - start)),
        decreases v.len() - i,
    {
        let c = v[i];
        if !('0' <= c && c <= '9') {
            assert(!all_digits(d)) by {
                assert(d[i - start] == c);
            }
            return None;
        }
        let dv = (c as u32 - '0' as u32) as u64;
        assert(d.take(i + 1 - start).drop_last() =~= d.take(i - start));
        assert(d.take(i + 1 - start).last() == c);
        if acc > (u64::MAX - dv) / 10 {
            proof {
                assert(forall|k: int| 0 <= k < i + 1 - start ==> is_ascii_digit(
                    #[trigger] d.take(i + 1 - start)[k],
                )) by {
                    assert forall|k: int| 0 <= k < i + 1 - start implies is_ascii_digit(
                        #[trigger] d.take(i + 1 - start)[k],
                    ) by {
                        assert(d.take(i + 1 - start)[k] == v@[start + k]);
                    }
                }
                assert(acc * 10 + dv > u64::MAX) by (nonlinear_arith)
                    requires
                        acc > (u64::MAX - dv) / 10,
                        dv <= 9,
                ;
                if all_digits(d) {
                    lemma_digits_value_grows(d, i + 1 - start);
                }
            }
            return None;
        }
        assert(acc * 10 + dv <= u64::MAX) by (nonlinear_arith)
            requires
                acc <= (u64::MAX - dv) / 10,
                dv <= 9,
        ;
        acc = acc * 10 + dv;
        i = i + 1;
    }
    assert(d.take(v.len() - start) =~= d);
    assert(all_digits(d)) by {
        assert forall|k: int| 0 <= k < d.len() implies is_ascii_digit(#[trigger] d[k]) by {
            assert(d[k] == v@[start + k]);
        }
    }
    Some(acc)
}

/// What `prompt_usize` makes of an input: its number, or 0 where it is
/// not one.
pub fn number_or_zero(input: &str) -> (r: usize)
    ensures
        r == (match parse_usize(input@) {
            Some(n) => n,
            None => 0,
        }),
{
    match parse_usize_of(input) {
        Some(n) => n,
        None => 0,
    }
}

/// Whether a menu choice picks one of `max` options (`1..=max`).
pub fn menu_choice_valid(choice: usize, max: usize) -> (r: bool)
    ensures
        r == (1 <= choice <= max),
{
    !(choice == 0 || choice > max)
}

/// The answer to a yes/no question: an empty answer takes the default;
/// with a default of yes anything but `n` is yes, with a default of no
/// only `y` is; the answer is compared less surrounding whitespace and in
/// lower case.
pub open spec fn yes_no(answer: Seq<char>, default_yes: bool) -> bool {
    let a = lowercased(trim(answer));
    if a.len() == 0 {
        default_yes
    } else if default_yes {
        a != seq!['n']
    } else {
        a == seq!['y']
    }
}

/// The answer to a yes/no question (the decision of `prompt_yn`).
pub fn answer_yes(answer: &str, default_yes: bool) -> (r: bool)
    ensures
        r == yes_no(answer@, default_yes),
        trim(answer@) == seq!['y'] || trim(answer@) == seq!['Y'] ==> r,
        trim(answer@) == seq!['n'] || trim(answer@) == seq!['N'] ==> !r,
{
    let t = trim_str(answer);
    proof {
        if t@ == seq!['y'] || t@ == seq!['Y'] || t@ == seq!['n'] || t@ == seq!['N'] {
            assert(vstd::utf8::is_ascii_chars(t@));
        }
    }
    let a = chars_of(to_lowercase(t.as_str()).as_str());
    if a.len() == 0 {
        default_yes
    } else if default_yes {
        let is_n = a.len() == 1 && a[0] == 'n';
        assert(is_n ==> a@ =~= seq!['n']);
        !is_n
    } else {
        assert(a.len() == 1 && a[0] == 'y' ==> a@ =~= seq!['y']);
        a.len() == 1 && a[0] == 'y'
    }
}

/// `s` is `yes` in lower case.
pub open spec fn is_yes(s: Seq<char>) -> bool {
    s == seq!['y', 'e', 's']
}

/// Whether an answer, less surrounding whitespace and in lower case, is
/// `yes` (the confirmation asked before overwriting a server).
pub fn confirmed_yes(answer: &str) -> (r: bool)
    ensures
        r == is_yes(lowercased(trim(answer@))),
{
    let t = trim_str(answer);
    let a = chars_of(to_lowercase(t.as_str()).as_str());
    let r = a.len() == 3 && a[0] == 'y' && a[1] == 'e' && a[2] == 's';
    assert(r ==> a@ =~= seq!['y', 'e', 's']);
    r
}

/// Whether an answer, less surrounding whitespace, is `yes` in any mix of
/// ASCII case (`eq_ignore_ascii_case("yes")`).
pub open spec fn yes_ignoring_case(s: Seq<char>) -> bool {
    s.len() == 3 && (s[0] == 'y' || s[0] == 'Y') && (s[1] == 'e' || s[1] == 'E') && (s[2] == 's'
        || s[2] == 'S')
}

/// Whether an answer, less surrounding whitespace, is `yes` ignoring ASCII
/// case (the confirmation asked before deleting).
pub fn confirmed_yes_ascii(answer: &str) -> (r: bool)
    ensures
        r == yes_ignoring_case(trim(answer@)),
{
    let t = chars_of(trim_str(answer).as_str());
    t.len() == 3 && (t[0] == 'y' || t[0] == 'Y') && (t[1] == 'e' || t[1] == 'E') && (t[2] == 's'
        || t[2] == 'S')
}

/// `s` with every `from` replaced by `to` (`str::replace` with a
/// character pattern and a one-character replacement).
pub open spec fn replace_char(s: Seq<char>, from: char, to: char) -> Seq<char> {
    s.map_values(|c: char| if c == from { to } else { c })
}

/// A server name as typed, with each space made a hyphen.
pub fn sanitize_name(raw: &str) -> (r: String)
    ensures
        r@ == replace_char(raw@, ' ', '-'),
{
    let v = chars_of(raw);
    let mut out: Vec<char> = Vec::new();
    let mut i: usize = 0;
    while i < v.len()
        invariant
            i <= v.len(),
            v@ == raw@,
            out@ == replace_char(v@.take(i as int), ' ', '-'),
        decreases v.len() - i,
    {
        out.push(if v[i] == ' ' { '-' } else { v[i] });
        assert(replace_char(v@.take(i + 1), ' ', '-') =~= replace_char(v@.take(i as int), ' ', '-').push(
            if v@[i as int] == ' ' { '-' } else { v@[i as int] },
        ));
        i = i + 1;
    }
    assert(v@.take(v.len() as int) =~= v@);
    string_of(&out)
}

/// `s` less surrounding whitespace, and less one pair of matching single
/// or double quotes around it where it has at least two characters.
pub open spec fn unquoted(s: Seq<char>) -> Seq<char> {
    let t = trim(s);
    if t.len() >= 2 && ((t[0] == '\'' && t.last() == '\'') || (t[0] == '"' && t.last() == '"')) {
        t.subrange(1, t.len() - 1)
    } else {
        t
    }
}

/// A path as typed, less surrounding whitespace and one pair of matching
/// quotes (`strip_quotes`).
pub fn strip_quotes(s: &str) -> (r: String)
    ensures
        r@ == unquoted(s@),
{
    let v = chars_of(s);
    let (a, b) = trim_bounds(&v);
    if b - a >= 2 && ((v[a] == '\'' && v[b - 1] == '\'') || (v[a] == '"' && v[b - 1] == '"')) {
        assert(v@.subrange(a as int, b as int).subrange(1, (b - a - 1) as int) =~= v@.subrange(
            a + 1,
            b - 1,
        ));
        string_of_range(&v, a + 1, b - 1)
    } else {
        string_of_range(&v, a, b)
    }
}

/// The path of a server JAR as typed, for the home directory `home`:
/// unquoted, then with a leading `~` expanded to that home directory.
pub fn resolve_jar_path_in(raw: &str, home: Option<String>) -> (r: String)
    ensures
        r@ == tilde_expansion(unquoted(raw@), opt_view(home)),
{
    let u = strip_quotes(raw);
    expand_tilde(u.as_str(), home)
}

/// The path of a server JAR as typed, expanded for the home directory that
/// `dirs::home_dir` reports (see `resolve_jar_path_in`).
pub fn resolve_jar_path(raw: &str) -> (r: String)
    ensures
        exists|home: Option<Seq<char>>| r@ == tilde_expansion(unquoted(raw@), home),
{
    let h = home_dir();
    resolve_jar_path_in(raw, h)
}

/// What the main menu offers.
#[derive(PartialEq, Eq, Structural, Debug, Clone, Copy)]
pub enum MainChoice {
    /// Manage the server at this index of the list.
    Manage(usize),
    StartAll,
    StopAll,
    Broadcast,
    CrashLogs,
    AddServer,
    Quit,
    /// No option has this number.
    Invalid,
}

/// The option that a number picks in the main menu listing `n` servers.
/// With no servers the menu offers only adding one (1) and quitting (2);
/// otherwise the servers come first and then start all, stop all,
/// broadcast, crash logs, add and quit.
pub open spec fn main_choice(n: nat, c: nat) -> MainChoice {
    if n == 0 {
        if c == 1 {
            MainChoice::AddServer
        } else if c == 2 {
            MainChoice::Quit
        } else {
            MainChoice::Invalid
        }
    } else if c == n + 6 {
        MainChoice::Quit
    } else if c == n + 5 {
        MainChoice::AddServer
    } else if c == n + 1 {
        MainChoice::StartAll
    } else if c == n + 2 {
        MainChoice::StopAll
    } else if c == n + 3 {
        MainChoice::Broadcast
    } else if c == n + 4 {
        MainChoice::CrashLogs
    } else if 1 <= c <= n {
        MainChoice::Manage((c - 1) as usize)
    } else {
        MainChoice::Invalid
    }
}

/// The option that `choice` picks in the main menu listing `n` servers.
pub fn main_menu_choice(n: usize, choice: usize) -> (r: MainChoice)
    requires
        n + 6 <= usize::MAX,
    ensures
        r == main_choice(n as nat, choice as nat),
{
    if n == 0 {
        if choice == 1 {
            MainChoice::AddServer
        } else if choice == 2 {
            MainChoice::Quit
        } else {
            MainChoice::Invalid
        }
    } else if choice == n + 6 {
        MainChoice::Quit
    } else if choice == n + 5 {
        MainChoice::AddServer
    } else if choice == n + 1 {
        MainChoice::StartAll
    } else if choice == n + 2 {
        MainChoice::StopAll
    } else if choice == n + 3 {
        MainChoice::Broadcast
    } else if choice == n + 4 {
        MainChoice::CrashLogs
    } else if choice >= 1 && choice <= n {
        MainChoice::Manage(choice - 1)
    } else {
        MainChoice::Invalid
    }
}

} // verus!

verus! {

/// What `str::parse::<i32>` gives: an optional sign and then one or more
/// ASCII digits whose signed value fits in `i32`; otherwise nothing.
pub open spec fn parse_i32(s: Seq<char>) -> Option<i32> {
    if s.len() == 0 {
        None
    } else {
        let d = if s[0] == '+' || s[0] == '-' {
            s.drop_first()
        } else {
            s
        };
        let v: int = if s[0] == '-' {
            -digits_value(d)
        } else {
            digits_value(d) as int
        };
        if d.len() > 0 && all_digits(d) && i32::MIN <= v <= i32::MAX {
            Some(v as i32)
        } else {
            None
        }
    }
}

/// `s` parsed as a signed number (`str::parse::<i32>`), as a process id
/// is read from a line of `pgrep`.
pub fn parse_i32_of(s: &str) -> (r: Option<i32>)
    ensures
        r == parse_i32(s@),
{
    let v = chars_of(s);
    if v.len() == 0 {
        return None;
    }
    let neg = v[0] == '-';
    let start: usize = if v[0] == '+' || v[0] == '-' {
        1
    } else {
        0
    };
    let ghost d = if s@[0] == '+' || s@[0] == '-' {
        s@.drop_first()
    } else {
        s@
    };
    assert(d =~= v@.skip(start as int));
    if start >= v.len() {
        return None;
    }
    let mut acc: u64 = 0;
    let mut i = start;
    while i < v.len()
        invariant
            start < v.len(),
            start <= i <= v.len(),
            v@ == s@,
            d == v@.skip(start as int),
            forall|k: int| start <= k < i ==> is_ascii_digit(#[trigger] v@[k]),
            acc as nat == digits_value(d.take(i - start)),
            acc <= 0x8000_0000,
            s@.len() > 0,
            neg == (s@[0] == '-'),
            d == (if s@[0] == '+' || s@[0] == '-' {
                s@.drop_first()
            } else {
                s@
            }),
        decreases v.len() - i,
    {
        let c = v[i];
        if !('0' <= c && c <= '9') {
            assert(!all_digits(d)) by {
                assert(d[i - start] == c);
            }
            return None;
        }
        let dv = (c as u32 - '0' as u32) as u64;
        assert(d.take(i + 1 - start).drop_last() =~= d.take(i - start));
        assert(d.take(i + 1 - start).last() == c);
        acc = acc * 10 + dv;
        if acc > 0x8000_0000 {
            proof {
                assert forall|k: int| 0 <= k < i + 1 - start implies is_ascii_digit(
                    #[trigger] d.take(i + 1 - start)[k],
                ) by {
                    assert(d.take(i + 1 - start)[k] == v@[start + k]);
                }
                if all_digits(d) {
                    lemma_digits_value_grows(d, i + 1 - start);
                }
            }
            return None;
        }
        i = i + 1;
    }
    assert(d.take(v.len() - start) =~= d);
    assert(all_digits(d)) by {
        assert forall|k: int| 0 <= k < d.len() implies is_ascii_digit(#[trigger] d[k]) by {
            assert(d[k] == v@[start + k]);
        }
    }
    if neg {
        Some((0 - (acc as i64)) as i32)
    } else if acc <= 0x7fff_ffff {
        Some(acc as i32)
    } else {
        None
    }
}

} // verus!

verus! {

/// Whether a name typed for a new or renamed server can be used: it is not
/// empty and no server of that name exists.
pub fn name_usable(name: &str, taken: bool) -> (r: bool)
    ensures
        r == (name@.len() > 0 && !taken),
{
    chars_of(name).len() > 0 && !taken
}

/// Whether `name` ends with `.log`, as crash logs are named.
pub fn is_log_name(name: &str) -> (r: bool)
    ensures
        r == (name@.len() >= 4 && name@.skip(name@.len() - 4) == ".log"@),
{
    let v = chars_of(name);
    let suffix = chars_of(".log");
    if v.len() < 4 {
        return false;
    }
    let r = crate::text::has_prefix_at(&v, v.len() - 4, &suffix);
    proof {
        reveal_strlit(".log");
        let t = v@.skip(v.len() - 4);
        assert(t.len() == 4);
        assert(t.take(4) =~= t);
    }
    r
}

} // verus!

verus! {

/// The main menu numbers its options from 1: with servers listed, the
/// first `n` numbers pick the servers in order and the next six pick start
/// all, stop all, broadcast, crash logs, add and quit; with none listed,
/// 1 adds a server and 2 quits; every other number picks nothing.
pub proof fn law_main_menu_numbers(n: nat, c: nat)
    ensures
        n > 0 && 1 <= c <= n ==> main_choice(n, c) == MainChoice::Manage((c - 1) as usize),
        n > 0 && c == n + 1 ==> main_choice(n, c) == MainChoice::StartAll,
        n > 0 && c == n + 2 ==> main_choice(n, c) == MainChoice::StopAll,
        n > 0 && c == n + 3 ==> main_choice(n, c) == MainChoice::Broadcast,
        n > 0 && c == n + 4 ==> main_choice(n, c) == MainChoice::CrashLogs,
        n > 0 && c == n + 5 ==> main_choice(n, c) == MainChoice::AddServer,
        n > 0 && c == n + 6 ==> main_choice(n, c) == MainChoice::Quit,
        n == 0 && c == 1 ==> main_choice(n, c) == MainChoice::AddServer,
        n == 0 && c == 2 ==> main_choice(n, c) == MainChoice::Quit,
        (c == 0 || (n > 0 && c > n + 6) || (n == 0 && c > 2)) ==> main_choice(n, c)
            == MainChoice::Invalid,
{
}

} // verus!
