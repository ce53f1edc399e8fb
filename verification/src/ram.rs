//! Amounts of memory: the RAM setting of a start script, how an amount
//! typed by the user is read, and how amounts are shown.

use vstd::prelude::*;
use vstd::arithmetic::div_mod::lemma_div_denominator;
use crate::console::{is_ascii_digit, is_ascii_letter};
use crate::external::{lowercased, to_lowercase};
use crate::text::{
    chars_of, decimal, decimal_of, digit_char, digit_of, extend_chars, extend_vec, has_prefix_at,
    is_prefix, is_ws, is_whitespace, string_of, trim, trim_str,
};

verus! {

/// 2 to the 53rd: below it every integer is an `f64` exactly.
pub open spec fn two_53() -> nat {
    0x20_0000_0000_0000
}

/// The power of two by which `m` must be divided to fit in 53 bits.
pub open spec fn f64_scale(m: nat) -> nat
    decreases m,
{
    if m < two_53() {
        1
    } else {
        2 * f64_scale(m / 2)
    }
}

/// The value of `m as f64`: `m` rounded to 53 significant bits, ties to
/// the even neighbour.
pub open spec fn f64_of(m: nat) -> nat {
    if m < two_53() {
        m
    } else {
        let d = f64_scale(m);
        let q = m / d;
        let r = m % d;
        if r > d / 2 || (r == d / 2 && q % 2 == 1) {
            (q + 1) * d
        } else {
            q * d
        }
    }
}

proof fn lemma_scale_pos(m: nat)
    ensures
        f64_scale(m) >= 1,
        m >= two_53() ==> f64_scale(m) >= 2 && f64_scale(m) % 2 == 0,
    decreases m,
{
    if m >= two_53() {
        lemma_scale_pos(m / 2);
    }
}

/// The value of `m as f64`, exactly.
pub fn f64_value(m: u64) -> (x: u128)
    ensures
        x == f64_of(m as nat),
        x <= 0x1_0000_0000_0000_1000,
{
    if m < 0x20_0000_0000_0000 {
        return m as u128;
    }
    let mut d: u64 = 1;
    let mut q: u64 = m;
    while q >= 0x20_0000_0000_0000
        invariant
            d >= 1,
            q as nat == m as nat / d as nat,
            f64_scale(m as nat) == d * f64_scale(q as nat),
            q as nat * d as nat <= m as nat,
            d <= 0x1000,
        decreases q,
    {
        proof {
            lemma_div_denominator(m as int, d as int, 2);
            assert(d < 0x800) by (nonlinear_arith)
                requires
                    q as nat * d as nat <= m as nat,
                    q >= 0x20_0000_0000_0000,
                    m <= 0xffff_ffff_ffff_ffff,
                    d >= 1,
            ;
            assert((q / 2) as nat * (d * 2) as nat <= m as nat) by (nonlinear_arith)
                requires
                    q as nat * d as nat <= m as nat,
            ;
            assert(f64_scale(q as nat) == 2 * f64_scale((q / 2) as nat));
            assert((d * 2) * f64_scale((q / 2) as nat) == d * (2 * f64_scale((q / 2) as nat)))
                by (nonlinear_arith);
        }
        d = d * 2;
        q = q / 2;
    }
    proof {
        lemma_scale_pos(m as nat);
        assert(f64_scale(q as nat) == 1);
        let sq = f64_scale(q as nat);
        let sm = f64_scale(m as nat);
        assert(sm == d as nat) by (nonlinear_arith)
            requires
                sm == d * sq,
                sq == 1,
        ;
        assert(m as nat / f64_scale(m as nat) == q as nat);
        assert(m as nat % f64_scale(m as nat) == (m % d) as nat);
    }
    let r = m % d;
    let half = d / 2;
    let x: u128 = if r > half || (r == half && q % 2 == 1) {
        assert((q as nat + 1) * d as nat <= q as nat * d as nat + d) by (nonlinear_arith);
        (q as u128 + 1) * (d as u128)
    } else {

        (q as u128) * (d as u128)
    };
    x
}

/// `num / den` rounded to a whole number of tenths (ties to an even last
/// digit) and written with one decimal, as `{:.1}` writes a float.
pub open spec fn tenths_text(num: nat, den: nat) -> Seq<char> {
    let t0 = num / den;
    let rem = num % den;
    let t = if 2 * rem > den || (2 * rem == den && t0 % 2 == 1) {
        t0 + 1
    } else {
        t0
    };
    decimal(t / 10) + seq!['.', digit_char(t % 10)]
}

/// `x / 1024` written with one decimal.
fn tenths_of_1024ths(x: u128) -> (r: Vec<char>)
    requires
        x <= 0x1_0000_0000_0000_1000,
    ensures
        r@ == tenths_text(x as nat * 10, 1024),
{
    let num = x * 10;
    let t0 = num / 1024;
    let rem = num % 1024;
    let t: u128 = if 2 * rem > 1024 || (2 * rem == 1024 && t0 % 2 == 1) {
        t0 + 1
    } else {
        t0
    };
    assert(t <= 0xffff_ffff_ffff_ffff);
    let t64 = t as u64;
    let mut v = decimal_of(t64 / 10);
    v.push('.');
    v.push(digit_of(t64 % 10));
    v
}

/// How an amount of MiB is shown in GiB: a whole number where the
/// fraction of `mib as f64 / 1024` is below 0.001, otherwise with one
/// decimal.
pub open spec fn gib_text(mib: nat) -> Seq<char> {
    let x = f64_of(mib);
    if x % 1024 <= 1 {
        decimal(x / 1024)
    } else {
        tenths_text(x * 10, 1024)
    }
}

/// The RAM shown for a server: its start script's setting in GiB, or `?`
/// where it has none.
pub fn get_ram(ram_mib: Option<u64>) -> (r: String)
    ensures
        r@ == match ram_mib {
            Some(m) => gib_text(m as nat),
            None => "?"@,
        },
{
    match ram_mib {
        None => string_of(&chars_of("?")),
        Some(m) => {
            let x = f64_value(m);
            if x % 1024 <= 1 {
                let q = x / 1024;
                string_of(&decimal_of(q as u64))
            } else {
                string_of(&tenths_of_1024ths(x))
            }
        },
    }
}

/// How the size of a crash log is shown: `bytes as f64 / 1024` with one
/// decimal, then ` KB`.
pub open spec fn kib_text(bytes: nat) -> Seq<char> {
    tenths_text(f64_of(bytes) * 10, 1024) + " KB"@
}

/// The size shown for a crash log of `bytes` bytes.
pub fn log_size_label(bytes: u64) -> (r: String)
    ensures
        r@ == kib_text(bytes as nat),
{
    let x = f64_value(bytes);
    let mut v = tenths_of_1024ths(x);
    extend_chars(&mut v, " KB");
    string_of(&v)
}

} // verus!

verus! {

/// `c` may stand in a number: an ASCII digit or `'.'`.
pub open spec fn is_num_char(c: char) -> bool {
    is_ascii_digit(c) || c == '.'
}

/// How many characters of `s` from `from` on satisfy `f`.
pub open spec fn run_len(s: Seq<char>, from: int, f: spec_fn(char) -> bool) -> nat
    decreases s.len() - from,
{
    if from < 0 || from >= s.len() {
        0
    } else if f(s[from]) {
        1 + run_len(s, from + 1, f)
    } else {
        0
    }
}

proof fn lemma_run_len(s: Seq<char>, from: int, f: spec_fn(char) -> bool, to: int)
    requires
        0 <= from <= to <= s.len(),
        forall|k: int| from <= k < to ==> f(s[k]),
        to == s.len() || !f(s[to]),
    ensures
        run_len(s, from, f) == to - from,
    decreases to - from,
{
    if from < to {
        lemma_run_len(s, from + 1, f, to);
    }
}

/// Every character of the run satisfies `f`, and the one after it does
/// not.
pub proof fn lemma_run_len_props(s: Seq<char>, from: int, f: spec_fn(char) -> bool)
    requires
        0 <= from,
    ensures
        from <= s.len() ==> from + run_len(s, from, f) <= s.len(),
        forall|k: int| from <= k < from + run_len(s, from, f) ==> f(#[trigger] s[k]),
        from + run_len(s, from, f) < s.len() ==> !f(s[from + run_len(s, from, f)]),
    decreases s.len() - from,
{
    if from < s.len() && f(s[from]) {
        lemma_run_len_props(s, from + 1, f);
    }
}

/// How many characters of `v` from `from` on satisfy the exec test `t`,
/// where `t` decides `f`.
fn run_end(v: &Vec<char>, from: usize, kind: u8) -> (r: usize)
    requires
        from <= v.len(),
        kind <= 2,
    ensures
        from <= r <= v.len(),
        r - from == run_len(v@, from as int, kind_fn(kind)),
{
    let mut i = from;
    while i < v.len() && in_class(v[i], kind)
        invariant
            from <= i <= v.len(),
            kind <= 2,
            forall|k: int| from <= k < i ==> (kind_fn(kind))(#[trigger] v@[k]),
        decreases v.len() - i,
    {
        i = i + 1;
    }
    proof {
        lemma_run_len(v@, from as int, kind_fn(kind), i as int);
    }
    i
}

/// Whether `c` is in the class `kind` of `kind_fn`.
fn in_class(c: char, kind: u8) -> (r: bool)
    requires
        kind <= 2,
    ensures
        r == (kind_fn(kind))(c),
{
    if kind == 0 {
        ('0' <= c && c <= '9') || c == '.'
    } else if kind == 1 {
        is_whitespace(c)
    } else {
        ('a' <= c && c <= 'z') || ('A' <= c && c <= 'Z')
    }
}

/// The character classes `run_end` scans: number characters, whitespace,
/// ASCII letters.
pub open spec fn kind_fn(kind: u8) -> spec_fn(char) -> bool {
    if kind == 0 {
        |c: char| is_num_char(c)
    } else if kind == 1 {
        |c: char| is_ws(c)
    } else {
        |c: char| is_ascii_letter(c)
    }
}

/// The unit of a RAM amount, with its factor to MiB.
#[derive(PartialEq, Eq, Structural, Debug, Clone, Copy)]
pub enum RamUnit {
    /// No unit, `g`, `gi` or `gib`: 1024 MiB.
    Gib,
    /// `gb`: 1000 MiB.
    Gb,
    /// `m`, `mb` or `mib`: 1 MiB.
    Mib,
    /// `k`, `kb` or `kib`: 1/1024 MiB.
    Kib,
    /// `t`, `tb` or `tib`: 1024² MiB.
    Tib,
    /// `p`, `pb` or `pib`: 1024³ MiB.
    Pib,
}

/// The unit that a suffix names, if any.
pub open spec fn unit_of(u: Seq<char>) -> Option<RamUnit> {
    if u == Seq::<char>::empty() || u == seq!['g'] || u == seq!['g', 'i'] || u == seq!['g', 'i', 'b'] {
        Some(RamUnit::Gib)
    } else if u == seq!['g', 'b'] {
        Some(RamUnit::Gb)
    } else if u == seq!['m'] || u == seq!['m', 'b'] || u == seq!['m', 'i', 'b'] {
        Some(RamUnit::Mib)
    } else if u == seq!['k'] || u == seq!['k', 'b'] || u == seq!['k', 'i', 'b'] {
        Some(RamUnit::Kib)
    } else if u == seq!['t'] || u == seq!['t', 'b'] || u == seq!['t', 'i', 'b'] {
        Some(RamUnit::Tib)
    } else if u == seq!['p'] || u == seq!['p', 'b'] || u == seq!['p', 'i', 'b'] {
        Some(RamUnit::Pib)
    } else {
        None
    }
}

/// `n` matches `[0-9]*\.?[0-9]+`: digits with at most one `'.'`, ending
/// in a digit.
pub open spec fn valid_number(n: Seq<char>) -> bool {
    &&& n.len() > 0
    &&& is_ascii_digit(n.last())
    &&& forall|i: int| 0 <= i < n.len() ==> is_num_char(#[trigger] n[i])
    &&& forall|i: int, j: int| 0 <= i < n.len() && 0 <= j < n.len() && n[i] == '.' && n[j] == '.' ==> i == j
}

/// An amount of RAM as typed: its number and its unit.
pub struct RamAmount {
    pub number: String,
    pub unit: RamUnit,
}

/// How an amount of RAM is read: less surrounding whitespace and in lower
/// case, it must be a number (`[0-9]*\.?[0-9]+`), optional whitespace and
/// a known unit, and nothing else.
pub open spec fn ram_parse(input: Seq<char>) -> Option<(Seq<char>, RamUnit)> {
    let s = lowercased(trim(input));
    let k = run_len(s, 0, kind_fn(0));
    let w = run_len(s, k as int, kind_fn(1));
    let n = s.take(k as int);
    let u = s.skip((k + w) as int);
    if valid_number(n) {
        match unit_of(u) {
            Some(unit) => Some((n, unit)),
            None => None,
        }
    } else {
        None
    }
}

/// Whether `u` holds the characters of `t`.
fn is_text(u: &Vec<char>, t: &str) -> (b: bool)
    ensures
        b == (u@ == t@),
{
    crate::text::chars_eq(u, &chars_of(t))
}

fn unit_of_chars(u: &Vec<char>) -> (r: Option<RamUnit>)
    ensures
        r == unit_of(u@),
{
    let n = u.len();
    let r = if n == 0 || is_text(u, "g") || is_text(u, "gi") || is_text(u, "gib") {
        Some(RamUnit::Gib)
    } else if is_text(u, "gb") {
        Some(RamUnit::Gb)
    } else if is_text(u, "m") || is_text(u, "mb") || is_text(u, "mib") {
        Some(RamUnit::Mib)
    } else if is_text(u, "k") || is_text(u, "kb") || is_text(u, "kib") {
        Some(RamUnit::Kib)
    } else if is_text(u, "t") || is_text(u, "tb") || is_text(u, "tib") {
        Some(RamUnit::Tib)
    } else if is_text(u, "p") || is_text(u, "pb") || is_text(u, "pib") {
        Some(RamUnit::Pib)
    } else {
        None
    };
    proof {
        reveal_strlit("g");
        reveal_strlit("gi");
        reveal_strlit("gib");
        reveal_strlit("gb");
        reveal_strlit("m");
        reveal_strlit("mb");
        reveal_strlit("mib");
        reveal_strlit("k");
        reveal_strlit("kb");
        reveal_strlit("kib");
        reveal_strlit("t");
        reveal_strlit("tb");
        reveal_strlit("tib");
        reveal_strlit("p");
        reveal_strlit("pb");
        reveal_strlit("pib");
        assert("g"@ =~= seq!['g']);
        assert("gi"@ =~= seq!['g', 'i']);
        assert("gib"@ =~= seq!['g', 'i', 'b']);
        assert("gb"@ =~= seq!['g', 'b']);
        assert("m"@ =~= seq!['m']);
        assert("mb"@ =~= seq!['m', 'b']);
        assert("mib"@ =~= seq!['m', 'i', 'b']);
        assert("k"@ =~= seq!['k']);
        assert("kb"@ =~= seq!['k', 'b']);
        assert("kib"@ =~= seq!['k', 'i', 'b']);
        assert("t"@ =~= seq!['t']);
        assert("tb"@ =~= seq!['t', 'b']);
        assert("tib"@ =~= seq!['t', 'i', 'b']);
        assert("p"@ =~= seq!['p']);
        assert("pb"@ =~= seq!['p', 'b']);
        assert("pib"@ =~= seq!['p', 'i', 'b']);
        if n == 0 {
            assert(u@ =~= Seq::<char>::empty());
        }
    }
    r
}

/// Reads an amount of RAM as typed (the pattern match of
/// `parse_ram_to_mib`); the conversion of its number to MiB is left to the
/// caller.
pub fn parse_ram_amount(input: &str) -> (r: Option<RamAmount>)
    ensures
        match r {
            Some(a) => ram_parse(input@) == Some((a.number@, a.unit)),
            None => ram_parse(input@) is None,
        },
{
    let s = chars_of(to_lowercase(trim_str(input).as_str()).as_str());
    let k = run_end(&s, 0, 0);
    let w = run_end(&s, k, 1);
    let mut n: Vec<char> = Vec::new();
    let mut i: usize = 0;
    while i < k
        invariant
            i <= k <= s.len(),
            n@ == s@.take(i as int),
        decreases k - i,
    {
        n.push(s[i]);
        assert(s@.take(i + 1) =~= s@.take(i as int).push(s@[i as int]));
        i = i + 1;
    }
    let mut u: Vec<char> = Vec::new();
    let mut j = w;
    while j < s.len()
        invariant
            w <= j <= s.len(),
            u@ == s@.subrange(w as int, j as int),
        decreases s.len() - j,
    {
        u.push(s[j]);
        assert(s@.subrange(w as int, j + 1) =~= s@.subrange(w as int, j as int).push(s@[j as int]));
        j = j + 1;
    }
    assert(u@ =~= s@.skip(w as int));
    proof {
        lemma_run_len_props(s@, 0, kind_fn(0));
        assert forall|q: int| 0 <= q < k implies is_num_char(#[trigger] n@[q]) by {
            assert((kind_fn(0))(s@[q]));
        }
    }
    if k == 0 || !('0' <= n[k - 1] && n[k - 1] <= '9') {
        return None;
    }
    let mut dots: usize = 0;
    let mut q: usize = 0;
    let mut first_dot: usize = 0;
    while q < k
        invariant
            q <= k == n.len(),
            s@ == lowercased(trim(input@)),
            n@ == s@.take(k as int),
            k == run_len(s@, 0, kind_fn(0)),
            dots <= 1,
            dots == 0 ==> forall|x: int| 0 <= x < q ==> n@[x] != '.',
            dots == 1 ==> first_dot < q && n@[first_dot as int] == '.' && forall|x: int|
                0 <= x < q && n@[x] == '.' ==> x == first_dot,
        decreases k - q,
    {
        if n[q] == '.' {
            if dots == 1 {
                assert(!valid_number(n@)) by {
                    assert(n@[first_dot as int] == '.' && n@[q as int] == '.');
                }
                return None;
            }
            dots = 1;
            first_dot = q;
        }
        q = q + 1;
    }
    assert(valid_number(n@));
    match unit_of_chars(&u) {
        None => None,
        Some(unit) => Some(RamAmount { number: string_of(&n), unit }),
    }
}

} // verus!

verus! {

/// The first position at or after `i` where `p` occurs in `s`.
pub open spec fn find_from(s: Seq<char>, p: Seq<char>, i: int) -> Option<int>
    decreases s.len() + 1 - i,
{
    if i < 0 || i > s.len() {
        None
    } else if is_prefix(p, s.skip(i)) {
        Some(i)
    } else {
        find_from(s, p, i + 1)
    }
}

/// The RAM setting of a start script: after the first `-Xmx`, its number
/// (digits and dots) and the letters that follow it; none where the script
/// has no `-Xmx` or no number follows it.
pub open spec fn xmx_text(script: Seq<char>) -> Option<Seq<char>> {
    match find_from(script, "-Xmx"@, 0) {
        None => None,
        Some(i) => {
            let rest = script.skip(i + 4);
            let k = run_len(rest, 0, kind_fn(0));
            let l = run_len(rest, k as int, kind_fn(2));
            if k == 0 {
                None
            } else {
                Some(rest.take((k + l) as int))
            }
        },
    }
}

/// A position `find_from` gives is where `p` occurs.
pub proof fn lemma_find_from(s: Seq<char>, p: Seq<char>, j: int)
    ensures
        find_from(s, p, j) matches Some(i) ==> j <= i <= s.len() && is_prefix(p, s.skip(i)),
    decreases s.len() + 1 - j,
{
    if 0 <= j <= s.len() && !is_prefix(p, s.skip(j)) {
        lemma_find_from(s, p, j + 1);
    }
}

/// The first position where `p` occurs in `s` (`str::find`).
pub fn find_text(s: &Vec<char>, p: &Vec<char>) -> (r: Option<usize>)
    ensures
        match r {
            Some(i) => find_from(s@, p@, 0) == Some(i as int),
            None => find_from(s@, p@, 0) is None,
        },
{
    let mut i: usize = 0;
    while i < s.len()
        invariant
            i <= s.len(),
            find_from(s@, p@, 0) == find_from(s@, p@, i as int),
        decreases s.len() - i,
    {
        if has_prefix_at(s, i, p) {
            return Some(i);
        }
        i = i + 1;
    }
    if has_prefix_at(s, i, p) {
        return Some(i);
    }
    assert(find_from(s@, p@, i + 1) is None);
    None
}

/// The RAM setting of the server's start script (the text scan of
/// `get_ram_mib`); its conversion to MiB is left to the caller.
pub fn xmx_setting(script: &Option<String>) -> (r: Option<String>)
    ensures
        match r {
            Some(t) => script matches Some(s) && xmx_text(s@) == Some(t@),
            None => match script {
                Some(s) => xmx_text(s@) is None,
                None => true,
            },
        },
{
    let s = match script {
        None => {
            return None;
        },
        Some(s) => chars_of(s.as_str()),
    };
    let p = chars_of("-Xmx");
    proof {
        reveal_strlit("-Xmx");
    }
    let i = match find_text(&s, &p) {
        None => {
            return None;
        },
        Some(i) => i,
    };
    assert(find_from(s@, p@, 0) == Some(i as int));
    proof {
        lemma_find_from(s@, p@, 0);
    }
    assert(i + 4 <= s.len());
    let start = i + 4;
    let k = run_end(&s, start, 0);
    let l = run_end(&s, k, 2);
    let ghost rest = s@.skip(start as int);
    proof {
        lemma_run_len_shift(s@, start as int, 0, kind_fn(0));
        lemma_run_len_shift(s@, start as int, (k - start) as int, kind_fn(2));
    }
    if k == start {
        return None;
    }
    let mut t: Vec<char> = Vec::new();
    let mut j = start;
    while j < l
        invariant
            start <= j <= l <= s.len(),
            t@ == s@.subrange(start as int, j as int),
        decreases l - j,
    {
        t.push(s[j]);
        assert(s@.subrange(start as int, j + 1) =~= s@.subrange(start as int, j as int).push(
            s@[j as int],
        ));
        j = j + 1;
    }
    assert(rest.take((l - start) as int) =~= t@);
    Some(string_of(&t))
}

proof fn lemma_run_len_shift(s: Seq<char>, p: int, from: int, f: spec_fn(char) -> bool)
    requires
        0 <= p <= s.len(),
        0 <= from,
    ensures
        run_len(s.skip(p), from, f) == run_len(s, p + from, f),
    decreases s.len() - p - from,
{
    if p + from < s.len() {
        assert(s.skip(p)[from] == s[p + from]);
        lemma_run_len_shift(s, p, from + 1, f);
    }
}

/// The JVM flags of a start script for heap, metaspace and direct memory
/// sizes in MiB.
pub open spec fn java_flags_text(xmx: nat, metaspace: nat, direct: nat) -> Seq<char> {
    "-Xmx"@ + decimal(xmx) + "m -Xms"@ + decimal(xmx) + "m -XX:MaxMetaspaceSize="@ + decimal(
        metaspace,
    ) + "m -XX:MaxDirectMemorySize="@ + decimal(direct) + "m -Xss256k"@
}

/// The JVM flags for the given sizes in MiB (the text of `java_flags_for`,
/// whose sizing is left to the caller).
pub fn java_flags(xmx: u64, metaspace: u64, direct: u64) -> (r: String)
    ensures
        r@ == java_flags_text(xmx as nat, metaspace as nat, direct as nat),
{
    let mut v = chars_of("-Xmx");
    extend_vec(&mut v, &decimal_of(xmx));
    extend_chars(&mut v, "m -Xms");
    extend_vec(&mut v, &decimal_of(xmx));
    extend_chars(&mut v, "m -XX:MaxMetaspaceSize=");
    extend_vec(&mut v, &decimal_of(metaspace));
    extend_chars(&mut v, "m -XX:MaxDirectMemorySize=");
    extend_vec(&mut v, &decimal_of(direct));
    extend_chars(&mut v, "m -Xss256k");
    string_of(&v)
}

} // verus!

verus! {

proof fn lemma_decimal_digits(n: nat)
    ensures
        decimal(n).len() >= 1,
        forall|k: int| 0 <= k < decimal(n).len() ==> is_ascii_digit(#[trigger] decimal(n)[k]),
    decreases n,
{
    if n >= 10 {
        lemma_decimal_digits(n / 10);
        let d = decimal(n / 10);
        assert forall|k: int| 0 <= k < decimal(n).len() implies is_ascii_digit(#[trigger] decimal(n)[k]) by {
            if k < d.len() {
                assert(decimal(n)[k] == d[k]);
            }
        }
    }
}

/// A heap of `n` GiB given to the JVM flags reads back as `n` GiB: the
/// `-Xmx` setting of the flags is `<n·1024>m`, and `n·1024` MiB is shown as
/// `n`.
pub proof fn law_ram_round_trip(n: nat, metaspace: nat, direct: nat)
    requires
        1 <= n <= 1_000_000,
    ensures
        xmx_text(java_flags_text(n * 1024, metaspace, direct)) == Some(decimal(n * 1024) + seq!['m']),
        gib_text(n * 1024) == decimal(n),
{
    let x = n * 1024;
    assert(x % 1024 == 0 && x / 1024 == n && x < two_53()) by (nonlinear_arith)
        requires
            x == n * 1024,
            1 <= n <= 1_000_000,
    ;
    assert(f64_of(x) == x);
    reveal_strlit("-Xmx");
    reveal_strlit("m -Xms");
    let flags = java_flags_text(x, metaspace, direct);
    let d = decimal(x);
    lemma_decimal_digits(x);
    assert(flags.skip(0) =~= flags);
    assert(flags.take(4) =~= "-Xmx"@);
    assert(find_from(flags, "-Xmx"@, 0) == Some(0int));
    let rest = flags.skip(4);
    assert(rest.take(d.len() as int) =~= d);
    assert(rest[d.len() as int] == 'm');
    assert(rest[d.len() as int + 1] == ' ');
    assert forall|k: int| 0 <= k < d.len() implies (kind_fn(0))(rest[k]) by {
        assert(rest[k] == d[k]);
    }
    lemma_run_len(rest, 0, kind_fn(0), d.len() as int);
    lemma_run_len(rest, d.len() as int, kind_fn(2), d.len() as int + 1);
    assert(rest.take(d.len() as int + 1) =~= d + seq!['m']);
}

proof fn lemma_find_at(s: Seq<char>, p: Seq<char>, j: int, m: int)
    requires
        0 <= j <= m <= s.len(),
        is_prefix(p, s.skip(m)),
        forall|i: int| j <= i < m ==> !is_prefix(p, #[trigger] s.skip(i)),
    ensures
        find_from(s, p, j) == Some(m),
    decreases m - j,
{
    if j < m {
        lemma_find_at(s, p, j + 1, m);
    }
}

/// The `-Xmx` setting of a script made of `pre`, then JVM flags for a heap
/// of `x` MiB, then `post`, where `pre` holds no `-Xmx`: `<x>m`.
proof fn lemma_xmx_after(pre: Seq<char>, x: nat, metaspace: nat, direct: nat, post: Seq<char>)
    requires
        forall|i: int|
            0 <= i < pre.len() ==> !is_prefix(
                "-Xmx"@,
                #[trigger] (pre + java_flags_text(x, metaspace, direct) + post).skip(i),
            ),
    ensures
        xmx_text(pre + java_flags_text(x, metaspace, direct) + post) == Some(decimal(x) + seq!['m']),
{
    reveal_strlit("-Xmx");
    reveal_strlit("m -Xms");
    let flags = java_flags_text(x, metaspace, direct);
    let s = pre + flags + post;
    let d = decimal(x);
    lemma_decimal_digits(x);
    assert(s.skip(pre.len() as int).take(4) =~= "-Xmx"@);
    lemma_find_at(s, "-Xmx"@, 0, pre.len() as int);
    let rest = s.skip(pre.len() as int + 4);
    assert(rest.take(d.len() as int) =~= d);
    assert(rest[d.len() as int] == 'm');
    assert(rest[d.len() as int + 1] == ' ');
    assert forall|k: int| 0 <= k < d.len() implies (kind_fn(0))(rest[k]) by {
        assert(rest[k] == d[k]);
    }
    lemma_run_len(rest, 0, kind_fn(0), d.len() as int);
    lemma_run_len(rest, d.len() as int, kind_fn(2), d.len() as int + 1);
    assert(rest.take(d.len() as int + 1) =~= d + seq!['m']);
}

/// The first lines of the start script up to the JVM flags.
spec fn script_head(name: Seq<char>) -> Seq<char> {
    "#!/usr/bin/env bash\n# fastmc — start script for "@ + name
        + "\ncd \"$(dirname \"$0\")\"\nulimit -c 0\nulimit -n 8192\nexec java "@
}

/// A start script written for a heap of `n` GiB reads back as `n` GiB: the
/// `-Xmx` setting of the setup's start script (for a server whose name
/// holds no `-Xmx`) and of the script that a RAM change writes is
/// `<n·1024>m`, and `n·1024` MiB is shown as `n`.
pub proof fn law_start_script_ram(name: Seq<char>, n: nat, metaspace: nat, direct: nat)
    requires
        1 <= n <= 1_000_000,
        !crate::config::occurs("-Xmx"@, name),
    ensures
        xmx_text(crate::server::start_script_text(name, java_flags_text(n * 1024, metaspace, direct)))
            == Some(decimal(n * 1024) + seq!['m']),
        xmx_text(crate::server::resized_script_text(java_flags_text(n * 1024, metaspace, direct)))
            == Some(decimal(n * 1024) + seq!['m']),
        gib_text(n * 1024) == decimal(n),
{
    law_ram_round_trip(n, metaspace, direct);
    let x = n * 1024;
    let flags = java_flags_text(x, metaspace, direct);
    let tail = " -jar server.jar nogui\n"@;
    let l1 = "#!/usr/bin/env bash\n# fastmc — start script for "@;
    let l2 = "\ncd \"$(dirname \"$0\")\"\nulimit -c 0\nulimit -n 8192\nexec java "@;
    let l3 = "#!/usr/bin/env bash\ncd \"$(dirname \"$0\")\"\nulimit -c 0\nulimit -n 8192\nexec java "@;
    reveal_strlit("#!/usr/bin/env bash\n# fastmc — start script for ");
    reveal_strlit("\ncd \"$(dirname \"$0\")\"\nulimit -c 0\nulimit -n 8192\nexec java ");
    reveal_strlit("#!/usr/bin/env bash\ncd \"$(dirname \"$0\")\"\nulimit -c 0\nulimit -n 8192\nexec java ");
    reveal_strlit("-Xmx");
    reveal_strlit("m -Xms");
    assert(flags[0] == '-');
    assert(forall|k: int| 0 <= k < l1.len() ==> l1[k] != 'X');
    assert(forall|k: int| 0 <= k < l2.len() ==> l2[k] != 'X');
    assert(forall|k: int| 0 <= k < l3.len() ==> l3[k] != 'X');
    // the setup's script
    let pre = l1 + name + l2;
    let s = pre + flags + tail;
    assert(crate::server::start_script_text(name, flags) =~= s);
    assert forall|i: int| 0 <= i < pre.len() implies !is_prefix("-Xmx"@, #[trigger] s.skip(i)) by {
        if is_prefix("-Xmx"@, s.skip(i)) {
            let q = "-Xmx"@;
            let t = s.skip(i);
            assert(t.take(4) == q);
            assert(t.take(4)[0] == t[0] && t.take(4)[1] == t[1] && t.take(4)[2] == t[2] && t.take(4)[3] == t[3]);
            assert(t[0] == '-' && t[1] == 'X' && t[2] == 'm' && t[3] == 'x');
            let a = l1.len() as int;
            let b = a + name.len();
            if i + 1 < a {
                assert(s[i + 1] == l1[i + 1]);
            } else if i + 1 == a {
                assert(s[i] == l1[a - 1]);
            } else if i + 3 < b {
                assert(name.skip(i - a).take(4) =~= s.skip(i).take(4));
                assert(crate::config::occurs("-Xmx"@, name)) by {
                    assert(is_prefix("-Xmx"@, name.skip(i - a)));
                }
            } else if i < b {
                assert(s[b] == '\n');
            } else if i + 1 < pre.len() {
                assert(s[i + 1] == l2[i + 1 - b]);
            } else {
                assert(s[i + 1] == flags[0]);
            }
        }
    }
    assert(s =~= pre + flags + tail);
    lemma_xmx_after(pre, x, metaspace, direct, tail);
    // the script of a RAM change
    let s3 = l3 + flags + tail;
    assert(crate::server::resized_script_text(flags) =~= s3);
    assert forall|i: int| 0 <= i < l3.len() implies !is_prefix("-Xmx"@, #[trigger] s3.skip(i)) by {
        if is_prefix("-Xmx"@, s3.skip(i)) {
            let t = s3.skip(i);
            assert(t.take(4) == "-Xmx"@);
            assert(t.take(4)[1] == t[1]);
            assert(t[1] == 'X');
            if i + 1 < l3.len() {
                assert(s3[i + 1] == l3[i + 1]);
            } else {
                assert(s3[i + 1] == flags[0]);
            }
        }
    }
    lemma_xmx_after(l3, x, metaspace, direct, tail);
}

} // verus!

verus! {

/// Which unit each suffix names: `m`, `mb` and `mib` are MiB; only `gb` is
/// the 1000-MiB unit; no suffix, `g`, `gi` and `gib` are GiB; `k`, `kb`,
/// `kib` KiB; `t`, `tb`, `tib` TiB; `p`, `pb`, `pib` PiB; any other suffix
/// names no unit.
pub proof fn law_ram_units(u: Seq<char>)
    ensures
        unit_of(u) == Some(RamUnit::Mib) <==> (u == seq!['m'] || u == seq!['m', 'b'] || u == seq![
            'm',
            'i',
            'b',
        ]),
        unit_of(u) == Some(RamUnit::Gb) <==> u == seq!['g', 'b'],
        unit_of(u) == Some(RamUnit::Gib) <==> (u.len() == 0 || u == seq!['g'] || u == seq!['g', 'i']
            || u == seq!['g', 'i', 'b']),
        unit_of(u) == Some(RamUnit::Kib) <==> (u == seq!['k'] || u == seq!['k', 'b'] || u == seq![
            'k',
            'i',
            'b',
        ]),
        unit_of(u) == Some(RamUnit::Tib) <==> (u == seq!['t'] || u == seq!['t', 'b'] || u == seq![
            't',
            'i',
            'b',
        ]),
        unit_of(u) == Some(RamUnit::Pib) <==> (u == seq!['p'] || u == seq!['p', 'b'] || u == seq![
            'p',
            'i',
            'b',
        ]),
{
    assert(seq!['g'].len() == 1 && seq!['g'][0] == 'g');
    assert(seq!['g', 'i'].len() == 2 && seq!['g', 'i'][0] == 'g' && seq!['g', 'i'][1] == 'i');
    assert(seq!['g', 'i', 'b'].len() == 3 && seq!['g', 'i', 'b'][0] == 'g' && seq!['g', 'i', 'b'][1] == 'i' && seq!['g', 'i', 'b'][2] == 'b');
    assert(seq!['g', 'b'].len() == 2 && seq!['g', 'b'][0] == 'g' && seq!['g', 'b'][1] == 'b');
    assert(seq!['m'].len() == 1 && seq!['m'][0] == 'm');
    assert(seq!['m', 'b'].len() == 2 && seq!['m', 'b'][0] == 'm' && seq!['m', 'b'][1] == 'b');
    assert(seq!['m', 'i', 'b'].len() == 3 && seq!['m', 'i', 'b'][0] == 'm' && seq!['m', 'i', 'b'][1] == 'i' && seq!['m', 'i', 'b'][2] == 'b');
    assert(seq!['k'].len() == 1 && seq!['k'][0] == 'k');
    assert(seq!['k', 'b'].len() == 2 && seq!['k', 'b'][0] == 'k' && seq!['k', 'b'][1] == 'b');
    assert(seq!['k', 'i', 'b'].len() == 3 && seq!['k', 'i', 'b'][0] == 'k' && seq!['k', 'i', 'b'][1] == 'i' && seq!['k', 'i', 'b'][2] == 'b');
    assert(seq!['t'].len() == 1 && seq!['t'][0] == 't');
    assert(seq!['t', 'b'].len() == 2 && seq!['t', 'b'][0] == 't' && seq!['t', 'b'][1] == 'b');
    assert(seq!['t', 'i', 'b'].len() == 3 && seq!['t', 'i', 'b'][0] == 't' && seq!['t', 'i', 'b'][1] == 'i' && seq!['t', 'i', 'b'][2] == 'b');
    assert(seq!['p'].len() == 1 && seq!['p'][0] == 'p');
    assert(seq!['p', 'b'].len() == 2 && seq!['p', 'b'][0] == 'p' && seq!['p', 'b'][1] == 'b');
    assert(seq!['p', 'i', 'b'].len() == 3 && seq!['p', 'i', 'b'][0] == 'p' && seq!['p', 'i', 'b'][1] == 'i' && seq!['p', 'i', 'b'][2] == 'b');
    if u.len() == 0 {
        assert(u =~= Seq::<char>::empty());
    }
}

} // verus!
