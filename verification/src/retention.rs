//! Backup retention: which archives of a server are removed after a backup
//! so that only the newest `backup_keep` (5 unless set) remain.

use vstd::prelude::*;
use crate::config::{meta_pairs, meta_value, read_meta};
use crate::console::{digits_value, is_ascii_digit, parse_usize, parse_usize_of};
use crate::dir::ServerDir;
use crate::text::{chars_of, decimal, digit_char, has_prefix, is_prefix, is_ws};

verus! {

/// `a` sorts before `b`, character by character (the order of `str`).
pub open spec fn text_lt(a: Seq<char>, b: Seq<char>) -> bool
    decreases a.len(),
{
    if b.len() == 0 {
        false
    } else if a.len() == 0 {
        true
    } else if a[0] != b[0] {
        a[0] < b[0]
    } else {
        text_lt(a.drop_first(), b.drop_first())
    }
}

proof fn lemma_lt_trans(a: Seq<char>, b: Seq<char>, c: Seq<char>)
    requires
        text_lt(a, b),
        text_lt(b, c),
    ensures
        text_lt(a, c),
    decreases a.len(),
{
    if a.len() > 0 && b.len() > 0 && c.len() > 0 && a[0] == b[0] && b[0] == c[0] {
        lemma_lt_trans(a.drop_first(), b.drop_first(), c.drop_first());
    }
}

proof fn lemma_lt_total(a: Seq<char>, b: Seq<char>)
    requires
        a != b,
    ensures
        text_lt(a, b) || text_lt(b, a),
    decreases a.len(),
{
    if a.len() > 0 && b.len() > 0 && a[0] == b[0] {
        if a.drop_first() == b.drop_first() {
            assert(a =~= seq![a[0]] + a.drop_first());
            assert(b =~= seq![b[0]] + b.drop_first());
        }
        lemma_lt_total(a.drop_first(), b.drop_first());
    } else if a.len() > 0 && b.len() > 0 {
        assert(a[0] != b[0]);
    } else if a.len() == 0 && b.len() == 0 {
        assert(a =~= b);
    }
}

proof fn lemma_lt_irreflexive(a: Seq<char>)
    ensures
        !text_lt(a, a),
    decreases a.len(),
{
    if a.len() > 0 {
        lemma_lt_irreflexive(a.drop_first());
    }
}

/// How many of `names` sort after `n`, that is, are newer archives.
pub open spec fn newer_count(names: Seq<Seq<char>>, n: Seq<char>) -> nat
    decreases names.len(),
{
    if names.len() == 0 {
        0
    } else {
        newer_count(names.drop_last(), n) + if text_lt(n, names.last()) {
            1nat
        } else {
            0nat
        }
    }
}

/// The archives among `upto` that have at least `keep` newer archives in
/// `all`, in order.
pub open spec fn pruned(all: Seq<Seq<char>>, upto: Seq<Seq<char>>, keep: nat) -> Seq<Seq<char>>
    decreases upto.len(),
{
    if upto.len() == 0 {
        seq![]
    } else {
        let p = pruned(all, upto.drop_last(), keep);
        if newer_count(all, upto.last()) >= keep {
            p.push(upto.last())
        } else {
            p
        }
    }
}

/// The archives to remove: those with at least `keep` newer ones.
pub open spec fn to_prune(names: Seq<Seq<char>>, keep: nat) -> Seq<Seq<char>> {
    pruned(names, names, keep)
}

/// Whether `a` sorts before `b`.
fn text_lt_of(a: &Vec<char>, b: &Vec<char>) -> (r: bool)
    ensures
        r == text_lt(a@, b@),
{
    let mut i: usize = 0;
    assert(a@.skip(0) =~= a@);
    assert(b@.skip(0) =~= b@);
    while i < a.len() && i < b.len() && a[i] == b[i]
        invariant
            i <= a.len(),
            i <= b.len(),
            text_lt(a@, b@) == text_lt(a@.skip(i as int), b@.skip(i as int)),
        decreases a.len() - i,
    {
        assert(a@.skip(i as int).drop_first() =~= a@.skip(i + 1));
        assert(b@.skip(i as int).drop_first() =~= b@.skip(i + 1));
        i = i + 1;
    }
    assert(a@.skip(i as int).len() == a.len() - i);
    assert(b@.skip(i as int).len() == b.len() - i);
    if i == b.len() {
        false
    } else if i == a.len() {
        true
    } else {
        a[i] < b[i]
    }
}

fn newer_count_of(names: &Vec<Vec<char>>, n: &Vec<char>) -> (r: usize)
    ensures
        r == newer_count(crate::text::views(names@), n@),
{
    let ghost vs = crate::text::views(names@);
    let mut c: usize = 0;
    let mut i: usize = 0;
    while i < names.len()
        invariant
            i <= names.len(),
            vs == crate::text::views(names@),
            c == newer_count(vs.take(i as int), n@),
            c <= i,
        decreases names.len() - i,
    {
        assert(vs.take(i + 1).drop_last() =~= vs.take(i as int));
        assert(vs.take(i + 1).last() == names@[i as int]@);
        if text_lt_of(n, &names[i]) {
            c = c + 1;
        }
        i = i + 1;
    }
    assert(vs.take(names.len() as int) =~= vs);
    c
}

/// The archive names to remove so that the newest `keep` remain: each name
/// that has at least `keep` names sorting after it (time stamps of one
/// fixed width sort in time order), in the order given.
pub fn archives_to_prune(names: &Vec<String>, keep: usize) -> (r: Vec<String>)
    ensures
        r@.map_values(|s: String| s@) == to_prune(names@.map_values(|s: String| s@), keep as nat),
{
    let ghost all = names@.map_values(|s: String| s@);
    let mut cs: Vec<Vec<char>> = Vec::new();
    let mut k: usize = 0;
    while k < names.len()
        invariant
            k <= names.len(),
            all == names@.map_values(|s: String| s@),
            cs.len() == k,
            crate::text::views(cs@) == all.take(k as int),
        decreases names.len() - k,
    {
        let ghost old = cs@;
        let c = chars_of(names[k].as_str());
        cs.push(c);
        assert forall|j: int| 0 <= j < k + 1 implies #[trigger] crate::text::views(cs@)[j]
            == all.take(k + 1)[j] by {
            if j < k {
                assert(crate::text::views(old)[j] == all.take(k as int)[j]);
                assert(cs@[j] == old[j]);
            }
        }
        assert(crate::text::views(cs@) =~= all.take(k + 1));
        k = k + 1;
    }
    assert(all.take(names.len() as int) =~= all);
    let mut r: Vec<String> = Vec::new();
    let mut i: usize = 0;
    while i < names.len()
        invariant
            i <= names.len(),
            all == names@.map_values(|s: String| s@),
            crate::text::views(cs@) == all,
            cs.len() == names.len(),
            r@.map_values(|s: String| s@) == pruned(all, all.take(i as int), keep as nat),
        decreases names.len() - i,
    {
        assert(all.take(i + 1).drop_last() =~= all.take(i as int));
        assert(all.take(i + 1).last() == cs@[i as int]@);
        let c = newer_count_of(&cs, &cs[i]);
        if c >= keep {
            let ghost before = r@;
            r.push(names[i].clone());
            assert(r@.map_values(|s: String| s@) =~= before.map_values(|s: String| s@).push(
                all[i as int],
            ));
        }
        i = i + 1;
    }
    assert(all.take(names.len() as int) =~= all);
    r
}

proof fn lemma_count_monotone(names: Seq<Seq<char>>, n: Seq<char>, m: Seq<char>)
    requires
        text_lt(m, n),
    ensures
        newer_count(names, m) >= newer_count(names, n),
    decreases names.len(),
{
    if names.len() > 0 {
        lemma_count_monotone(names.drop_last(), n, m);
        if text_lt(n, names.last()) {
            lemma_lt_trans(m, n, names.last());
        }
    }
}

proof fn lemma_pruned_props(all: Seq<Seq<char>>, upto: Seq<Seq<char>>, keep: nat, x: Seq<char>)
    ensures
        pruned(all, upto, keep).contains(x) <==> (upto.contains(x) && newer_count(all, x) >= keep),
    decreases upto.len(),
{
    if upto.len() > 0 {
        lemma_pruned_props(all, upto.drop_last(), keep, x);
        let p = pruned(all, upto.drop_last(), keep);
        if upto.contains(x) && x != upto.last() {
            let j = choose|j: int| 0 <= j < upto.len() && upto[j] == x;
            assert(upto.drop_last()[j] == x);
        }
        if upto.drop_last().contains(x) {
            let j = choose|j: int| 0 <= j < upto.drop_last().len() && upto.drop_last()[j] == x;
            assert(upto[j] == x);
        }
        if newer_count(all, upto.last()) >= keep {
            if p.push(upto.last()).contains(x) && x != upto.last() {
                let j = choose|j: int| 0 <= j < p.push(upto.last()).len() && p.push(upto.last())[j] == x;
                assert(p[j] == x);
            }
            if p.contains(x) {
                let j = choose|j: int| 0 <= j < p.len() && p[j] == x;
                assert(p.push(upto.last())[j] == x);
            }
            assert(p.push(upto.last())[p.len() as int] == upto.last());
        }
        assert(upto[upto.len() - 1] == upto.last());
    }
}

/// Retention never removes an archive newer than one it keeps: every
/// archive removed sorts before every archive kept; and with `keep` at
/// least 1 the newest archive is always kept.
pub proof fn law_prune_removes_only_older(names: Seq<Seq<char>>, keep: nat, gone: Seq<char>, kept: Seq<char>)
    requires
        names.contains(gone),
        names.contains(kept),
        to_prune(names, keep).contains(gone),
        !to_prune(names, keep).contains(kept),
    ensures
        text_lt(gone, kept),
{
    lemma_pruned_props(names, names, keep, gone);
    lemma_pruned_props(names, names, keep, kept);
    if gone == kept {
    } else {
        lemma_lt_total(gone, kept);
        if text_lt(kept, gone) {
            lemma_count_monotone(names, gone, kept);
        }
    }
}

/// With `keep` at least 1, an archive that no other archive sorts after
/// (the newest) is kept.
pub proof fn law_prune_keeps_newest(names: Seq<Seq<char>>, keep: nat, newest: Seq<char>)
    requires
        keep >= 1,
        forall|i: int| 0 <= i < names.len() ==> !text_lt(newest, #[trigger] names[i]),
    ensures
        !to_prune(names, keep).contains(newest),
{
    lemma_no_newer(names, newest);
    lemma_pruned_props(names, names, keep, newest);
}

proof fn lemma_no_newer(names: Seq<Seq<char>>, n: Seq<char>)
    requires
        forall|i: int| 0 <= i < names.len() ==> !text_lt(n, #[trigger] names[i]),
    ensures
        newer_count(names, n) == 0,
    decreases names.len(),
{
    if names.len() > 0 {
        assert forall|i: int| 0 <= i < names.drop_last().len() implies !text_lt(
            n,
            #[trigger] names.drop_last()[i],
        ) by {
            assert(names.drop_last()[i] == names[i]);
        }
        lemma_no_newer(names.drop_last(), n);
        assert(names[names.len() - 1] == names.last());
    }
}

proof fn lemma_count_strict(names: Seq<Seq<char>>, n: Seq<char>, m: Seq<char>)
    requires
        text_lt(m, n),
        names.contains(n),
    ensures
        newer_count(names, m) >= newer_count(names, n) + 1,
    decreases names.len(),
{
    let a = names.drop_last();
    let l = names.last();
    lemma_lt_irreflexive(n);
    if a.contains(n) {
        lemma_count_strict(a, n, m);
        if text_lt(n, l) {
            lemma_lt_trans(m, n, l);
        }
    } else {
        let j = choose|j: int| 0 <= j < names.len() && names[j] == n;
        if j < names.len() - 1 {
            assert(a[j] == n);
        }
        assert(l == n);
        lemma_count_monotone(a, n, m);
    }
}

/// The archives that remain after pruning with `keep`.
pub open spec fn kept_archives(names: Seq<Seq<char>>, keep: nat) -> Set<Seq<char>> {
    Set::new(|x: Seq<char>| names.contains(x) && !to_prune(names, keep).contains(x))
}

/// After a backup prunes its server's archives with `keep`, at most `keep`
/// of them remain; by `law_prune_removes_only_older` they are the newest.
pub proof fn law_prune_keeps_at_most(names: Seq<Seq<char>>, keep: nat)
    ensures
        kept_archives(names, keep).finite(),
        kept_archives(names, keep).len() <= keep,
{
    broadcast use vstd::seq_lib::seq_to_set_is_finite;
    let kept = kept_archives(names, keep);
    assert(kept.subset_of(names.to_set()));
    vstd::set_lib::lemma_len_subset(kept, names.to_set());
    let f = |x: Seq<char>| newer_count(names, x) as int;
    assert forall|x1: Seq<char>, x2: Seq<char>|
        kept.contains(x1) && kept.contains(x2) && #[trigger] f(x1) == #[trigger] f(x2) implies x1
        == x2 by {
        if x1 != x2 {
            lemma_lt_total(x1, x2);
            if text_lt(x1, x2) {
                lemma_count_strict(names, x2, x1);
            } else {
                lemma_count_strict(names, x1, x2);
            }
        }
    }
    let y = kept.map(f);
    vstd::set_lib::lemma_map_size(kept, y, f);
    assert forall|v: int| y.contains(v) implies vstd::set_lib::set_int_range(0, keep as int).contains(
        v,
    ) by {
        let x = choose|x: Seq<char>| kept.contains(x) && v == f(x);
        lemma_pruned_props(names, names, keep, x);
    }
    vstd::set_lib::lemma_int_range(0, keep as int);
    vstd::set_lib::lemma_len_subset(y, vstd::set_lib::set_int_range(0, keep as int));
}

proof fn lemma_count_below_len(names: Seq<Seq<char>>, x: Seq<char>)
    requires
        names.contains(x),
    ensures
        newer_count(names, x) < names.len(),
    decreases names.len(),
{
    let a = names.drop_last();
    lemma_lt_irreflexive(x);
    if a.contains(x) {
        lemma_count_below_len(a, x);
    } else {
        let j = choose|j: int| 0 <= j < names.len() && names[j] == x;
        if j < names.len() - 1 {
            assert(a[j] == x);
        }
        lemma_count_le_len(a, x);
    }
}

proof fn lemma_count_le_len(names: Seq<Seq<char>>, x: Seq<char>)
    ensures
        newer_count(names, x) <= names.len(),
    decreases names.len(),
{
    if names.len() > 0 {
        lemma_count_le_len(names.drop_last(), x);
    }
}

/// A server with no more archives than it keeps loses none of them.
pub proof fn law_prune_nothing_within_keep(names: Seq<Seq<char>>, keep: nat, x: Seq<char>)
    requires
        names.len() <= keep,
    ensures
        !to_prune(names, keep).contains(x),
{
    lemma_pruned_props(names, names, keep, x);
    if names.contains(x) {
        lemma_count_below_len(names, x);
    }
}

/// How many archives a server keeps: its `backup_keep` value where that is
/// a number, 5 otherwise.
pub open spec fn keep_of(dir: ServerDir) -> nat {
    match parse_usize(meta_value(meta_pairs(dir.meta@), "backup_keep"@)) {
        Some(n) => n as nat,
        None => 5,
    }
}

/// How many archives the server in `dir` keeps.
pub fn keep_count(dir: &ServerDir) -> (r: usize)
    ensures
        r == keep_of(*dir),
{
    match parse_usize_of(read_meta(dir, "backup_keep").as_str()) {
        Some(n) => n,
        None => 5,
    }
}

proof fn lemma_decimal_parses(n: nat)
    ensures
        decimal(n).len() >= 1,
        forall|k: int| 0 <= k < decimal(n).len() ==> is_ascii_digit(#[trigger] decimal(n)[k]),
        digits_value(decimal(n)) == n,
    decreases n,
{
    if n >= 10 {
        lemma_decimal_parses(n / 10);
        let d = decimal(n / 10);
        let c = digit_char(n % 10);
        assert(decimal(n) == d + seq![c]);
        assert((d + seq![c]).drop_last() =~= d);
        assert(c as nat - '0' as nat == n % 10);
        assert forall|k: int| 0 <= k < decimal(n).len() implies is_ascii_digit(#[trigger] decimal(n)[k]) by {
            if k < d.len() {
                assert(decimal(n)[k] == d[k]);
            }
        }
        let e = decimal(n);
        assert(e.drop_last() =~= d);
        assert(e.last() == c);
        assert(digits_value(e) == digits_value(e.drop_last()) * 10 + (e.last() as nat - '0' as nat) as nat);
        assert(n == (n / 10) * 10 + n % 10);
    } else {
        let e = decimal(n);
        assert(e.last() == digit_char(n));
        assert(digits_value(e) == digits_value(e.drop_last()) * 10 + (e.last() as nat - '0' as nat) as nat);
        let c = digit_char(n);
        assert(decimal(n) == seq![c]);
        assert(seq![c].drop_last() =~= Seq::<char>::empty());
        assert(c as nat - '0' as nat == n);
    }
}

/// The retention count is the number recorded under `backup_keep` itself:
/// once `backup_keep` is written as the decimal number `n`, the server
/// keeps `n` archives; where the value recorded reads as no number, it
/// keeps 5.
pub proof fn law_keep_count(
    m: Seq<(Seq<char>, Seq<char>)>,
    n: nat,
    dir: ServerDir,
    other: ServerDir,
)
    requires
        n <= usize::MAX,
        meta_pairs(dir.meta@) == crate::config::meta_write(
            m,
            "backup_keep"@,
            crate::config::meta_text(decimal(n)),
        ),
        parse_usize(meta_value(meta_pairs(other.meta@), "backup_keep"@)) is None,
    ensures
        keep_of(dir) == n,
        keep_of(other) == 5,
{
    lemma_decimal_parses(n);
    crate::config::law_meta_read_after_write(m, "backup_keep"@, decimal(n), "backup_keep"@);
    let d = decimal(n);
    assert(!is_ws(d[0]));
    assert(!is_ws(d.last()));
    assert(crate::text::trim_start(d) == d);
    assert(crate::text::trim_end(d) == d);
    assert(d[0] != '+');
    assert(crate::console::all_digits(d));
}

/// A file of a server's backup folder is one of its archives: its name is
/// the server's name, `_`, and a stamp.
pub open spec fn is_archive_of(server: Seq<char>, file: Seq<char>) -> bool {
    is_prefix(server + seq!['_'], file)
}

/// Whether `file` in the backup folder of `server` is one of its archives.
pub fn archive_of(server: &str, file: &str) -> (r: bool)
    ensures
        r == is_archive_of(server@, file@),
{
    let mut p = chars_of(server);
    p.push('_');
    assert(p@ =~= server@ + seq!['_']);
    has_prefix(&chars_of(file), &p)
}

} // verus!
