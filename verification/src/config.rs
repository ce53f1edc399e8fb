//! The server's own files: the `fastmc/` metadata files, `.mcserver.conf`
//! and the whitelist switch of `server.properties`.

use vstd::prelude::*;
use crate::dir::{MetaFile, ServerDir};
use crate::dir::opt_view;
use crate::text::{
    chars_eq, chars_of, has_prefix, has_prefix_at, is_prefix, is_ws, join_lines, join_lines_of,
    find_char_from, index_of, lemma_index_of_bounds, lemma_join_terminated, lemma_lines_no_newline, lemma_lines_terminated, lemma_strip_cr_prefix,
    lines, lines_of, none_holds, string_of, strip_cr, trim, trim_bounds, trim_end, trim_start, trim_str, views,
};

verus! {

/// A metadata folder as pairs of key and content.
pub open spec fn meta_pairs(meta: Seq<MetaFile>) -> Seq<(Seq<char>, Seq<char>)> {
    meta.map_values(|f: MetaFile| (f.key@, f.content@))
}

/// The content stored under `key`: that of the first file so named.
pub open spec fn meta_lookup(m: Seq<(Seq<char>, Seq<char>)>, key: Seq<char>) -> Option<Seq<char>>
    decreases m.len(),
{
    if m.len() == 0 {
        None
    } else if m[0].0 == key {
        Some(m[0].1)
    } else {
        meta_lookup(m.drop_first(), key)
    }
}

/// What `read_meta` gives for `key`: the trimmed content, or nothing.
pub open spec fn meta_value(m: Seq<(Seq<char>, Seq<char>)>, key: Seq<char>) -> Seq<char> {
    match meta_lookup(m, key) {
        Some(c) => trim(c),
        None => seq![],
    }
}

/// The folder after the file `key` is written with `text`: the first file
/// of that name gets the new content, or a file is added at the end.
pub open spec fn meta_write(m: Seq<(Seq<char>, Seq<char>)>, key: Seq<char>, text: Seq<char>) -> Seq<
    (Seq<char>, Seq<char>),
>
    decreases m.len(),
{
    if m.len() == 0 {
        seq![(key, text)]
    } else if m[0].0 == key {
        seq![(key, text)] + m.drop_first()
    } else {
        seq![m[0]] + meta_write(m.drop_first(), key, text)
    }
}

/// The text a metadata file is written with: the value and a newline.
pub open spec fn meta_text(value: Seq<char>) -> Seq<char> {
    value + seq!['\n']
}

proof fn lemma_meta_write_at(m: Seq<(Seq<char>, Seq<char>)>, key: Seq<char>, text: Seq<char>, i: int)
    requires
        0 <= i <= m.len(),
        forall|k: int| 0 <= k < i ==> m[k].0 != key,
        i < m.len() ==> m[i].0 == key,
    ensures
        meta_write(m, key, text) == (if i < m.len() {
            m.update(i, (key, text))
        } else {
            m.push((key, text))
        }),
        i < m.len() ==> meta_lookup(m, key) == Some(m[i].1),
        i == m.len() ==> meta_lookup(m, key) is None,
    decreases i,
{
    if i > 0 {
        lemma_meta_write_at(m.drop_first(), key, text, i - 1);
        if i < m.len() {
            assert(seq![m[0]] + m.drop_first().update(i - 1, (key, text)) =~= m.update(
                i,
                (key, text),
            ));
        } else {
            assert(seq![m[0]] + m.drop_first().push((key, text)) =~= m.push((key, text)));
        }
    } else if m.len() > 0 {
        assert(seq![(key, text)] + m.drop_first() =~= m.update(0, (key, text)));
    } else {
        assert(seq![(key, text)] =~= m.push((key, text)));
    }
}

/// Writing one file leaves what the other keys hold as it was, and the
/// written key holds the new text.
pub proof fn lemma_meta_write_lookup(
    m: Seq<(Seq<char>, Seq<char>)>,
    key: Seq<char>,
    text: Seq<char>,
    other: Seq<char>,
)
    ensures
        meta_lookup(meta_write(m, key, text), key) == Some(text),
        other != key ==> meta_lookup(meta_write(m, key, text), other) == meta_lookup(m, other),
    decreases m.len(),
{
    if m.len() > 0 {
        lemma_meta_write_lookup(m.drop_first(), key, text, other);
        if m[0].0 == key {
            assert((seq![(key, text)] + m.drop_first())[0] == (key, text));
            assert((seq![(key, text)] + m.drop_first()).drop_first() =~= m.drop_first());
        } else {
            assert((seq![m[0]] + meta_write(m.drop_first(), key, text))[0] == m[0]);
            assert((seq![m[0]] + meta_write(m.drop_first(), key, text)).drop_first()
                =~= meta_write(m.drop_first(), key, text));
        }
    } else {
        assert(seq![(key, text)][0] == (key, text));
        assert(seq![(key, text)].drop_first() =~= Seq::<(Seq<char>, Seq<char>)>::empty());
        assert(meta_lookup(Seq::<(Seq<char>, Seq<char>)>::empty(), other) is None);
    }
}

/// Index of the first metadata file named `key`, or the count of files.
fn find_meta(meta: &Vec<MetaFile>, key: &Vec<char>) -> (i: usize)
    ensures
        i <= meta.len(),
        forall|k: int| 0 <= k < i ==> meta@[k].key@ != key@,
        i < meta.len() ==> meta@[i as int].key@ == key@,
{
    let mut i: usize = 0;
    while i < meta.len()
        invariant
            i <= meta.len(),
            forall|k: int| 0 <= k < i ==> meta@[k].key@ != key@,
        decreases meta.len() - i,
    {
        let name = chars_of(meta[i].key.as_str());
        if chars_eq(&name, key) {
            return i;
        }
        i = i + 1;
    }
    i
}

/// The value stored under `key` in the metadata folder: the file's content
/// less surrounding whitespace, or empty where there is no such file.
pub fn read_meta(dir: &ServerDir, key: &str) -> (r: String)
    ensures
        r@ == meta_value(meta_pairs(dir.meta@), key@),
{
    let k = chars_of(key);
    let i = find_meta(&dir.meta, &k);
    let ghost m = meta_pairs(dir.meta@);
    proof {
        assert forall|j: int| 0 <= j < i implies m[j].0 != key@ by {
            assert(m[j].0 == dir.meta@[j].key@);
        }
        lemma_meta_write_at(m, key@, seq![], i as int);
    }
    if i < dir.meta.len() {
        trim_str(dir.meta[i].content.as_str())
    } else {
        String::new()
    }
}

/// Everything but the metadata folder is the same in `a` and `b`.
pub open spec fn same_but_meta(a: ServerDir, b: ServerDir) -> bool {
    &&& a.path == b.path
    &&& a.conf_exists == b.conf_exists
    &&& a.conf == b.conf
    &&& a.properties == b.properties
    &&& a.start_script_exists == b.start_script_exists
    &&& a.start_script == b.start_script
    &&& a.jar_count == b.jar_count
    &&& a.canonical_path == b.canonical_path
    &&& a.java_processes == b.java_processes
}

/// Stores `value` under `key` in the metadata folder and returns the text
/// that the file is written with (the value and a newline).
pub fn write_meta(dir: &mut ServerDir, key: &str, value: &str) -> (text: String)
    ensures
        text@ == meta_text(value@),
        final(dir).meta_dir_exists,
        meta_pairs(final(dir).meta@) == meta_write(meta_pairs(old(dir).meta@), key@, text@),
        same_but_meta(*final(dir), *old(dir)),
{
    let k = chars_of(key);
    let i = find_meta(&dir.meta, &k);
    let mut t = chars_of(value);
    t.push('\n');
    let text = string_of(&t);
    let entry = MetaFile { key: string_of(&k), content: string_of(&t) };
    let ghost m = meta_pairs(dir.meta@);
    proof {
        assert forall|j: int| 0 <= j < i implies m[j].0 != key@ by {
            assert(m[j].0 == dir.meta@[j].key@);
        }
        lemma_meta_write_at(m, key@, text@, i as int);
    }
    dir.meta_dir_exists = true;
    if i < dir.meta.len() {
        dir.meta.set(i, entry);
        assert(meta_pairs(dir.meta@) =~= m.update(i as int, (key@, text@)));
    } else {
        dir.meta.push(entry);
        assert(meta_pairs(dir.meta@) =~= m.push((key@, text@)));
    }
    text
}

/// Reading a metadata value back after writing it gives the value less
/// surrounding whitespace, and no other key changes.
pub proof fn law_meta_read_after_write(
    m: Seq<(Seq<char>, Seq<char>)>,
    key: Seq<char>,
    value: Seq<char>,
    other: Seq<char>,
)
    ensures
        meta_value(meta_write(m, key, meta_text(value)), key) == trim(value),
        other != key ==> meta_value(meta_write(m, key, meta_text(value)), other) == meta_value(
            m,
            other,
        ),
{
    lemma_meta_write_lookup(m, key, meta_text(value), other);
    lemma_trim_newline(value);
}

/// A final newline does not change what `trim` keeps.
pub proof fn lemma_trim_newline(v: Seq<char>)
    ensures
        trim(v + seq!['\n']) == trim(v),
{
    lemma_trim_start_append_ws(v);
    let a = trim_start(v);
    if a.len() > 0 {
        assert(trim_start(v + seq!['\n']) == a + seq!['\n']);
        assert((a + seq!['\n']).drop_last() =~= a);
    } else {
        assert(trim_start(v + seq!['\n']) == Seq::<char>::empty());
    }
}

proof fn lemma_trim_start_append_ws(v: Seq<char>)
    ensures
        trim_start(v).len() > 0 ==> trim_start(v + seq!['\n']) == trim_start(v) + seq!['\n'],
        trim_start(v).len() == 0 ==> trim_start(v + seq!['\n']) == Seq::<char>::empty(),
    decreases v.len(),
{
    let w = v + seq!['\n'];
    assert(is_ws('\n'));
    if v.len() == 0 {
        assert(w[0] == '\n');
        assert(w.drop_first() =~= Seq::<char>::empty());
        assert(trim_start(Seq::<char>::empty()) == Seq::<char>::empty());
    } else if is_ws(v[0]) {
        assert(w[0] == v[0]);
        assert(w.drop_first() =~= v.drop_first() + seq!['\n']);
        lemma_trim_start_append_ws(v.drop_first());
    } else {
        assert(w[0] == v[0]);
    }
}

} // verus!

verus! {

/// `key` followed by `'='`: how a line of `.mcserver.conf` starts that holds
/// `key`.
pub open spec fn keyed(key: Seq<char>) -> Seq<char> {
    key + seq!['=']
}

/// `s` with `p` removed from its front as often as it is there
/// (`str::trim_start_matches` with a non-empty pattern).
pub open spec fn strip_repeated(s: Seq<char>, p: Seq<char>) -> Seq<char>
    decreases s.len(),
{
    if p.len() > 0 && is_prefix(p, s) {
        strip_repeated(s.skip(p.len() as int), p)
    } else {
        s
    }
}

/// The value of the first line that starts with `p`, with every leading
/// `p` removed; empty where no line does.
pub open spec fn conf_lookup(ls: Seq<Seq<char>>, p: Seq<char>) -> Seq<char>
    decreases ls.len(),
{
    if ls.len() == 0 {
        seq![]
    } else if is_prefix(p, ls[0]) {
        strip_repeated(ls[0], p)
    } else {
        conf_lookup(ls.drop_first(), p)
    }
}

/// What `read_conf` gives for `key` of a configuration file's content.
pub open spec fn conf_value(conf: Option<Seq<char>>, key: Seq<char>) -> Seq<char> {
    match conf {
        Some(c) => conf_lookup(lines(c), keyed(key)),
        None => seq![],
    }
}

/// The lines that do not start with `p`, in order.
pub open spec fn drop_keyed(ls: Seq<Seq<char>>, p: Seq<char>) -> Seq<Seq<char>>
    decreases ls.len(),
{
    if ls.len() == 0 {
        seq![]
    } else if is_prefix(p, ls[0]) {
        drop_keyed(ls.drop_first(), p)
    } else {
        seq![ls[0]] + drop_keyed(ls.drop_first(), p)
    }
}

/// The content `write_conf` writes: the old lines that do not hold `key`,
/// then `key=value`, joined by newlines, with a final newline.
pub open spec fn conf_written(conf: Option<Seq<char>>, key: Seq<char>, value: Seq<char>) -> Seq<
    char,
> {
    let old_lines = match conf {
        Some(c) => lines(c),
        None => seq![],
    };
    join_lines(drop_keyed(old_lines, keyed(key)).push(keyed(key) + value)) + seq!['\n']
}

/// `s` less every leading copy of `p`.
fn strip_repeated_of(s: &Vec<char>, p: &Vec<char>) -> (r: Vec<char>)
    requires
        p.len() > 0,
    ensures
        r@ == strip_repeated(s@, p@),
{
    let mut pos: usize = 0;
    assert(s@.skip(0) =~= s@);
    while has_prefix_at(s, pos, p)
        invariant
            pos <= s.len(),
            p.len() > 0,
            strip_repeated(s@, p@) == strip_repeated(s@.skip(pos as int), p@),
        decreases s.len() - pos,
    {
        assert(s@.skip(pos as int).skip(p.len() as int) =~= s@.skip(pos + p.len()));
        pos = pos + p.len();
    }
    let mut r: Vec<char> = Vec::new();
    let mut k = pos;
    while k < s.len()
        invariant
            pos <= k <= s.len(),
            r@ == s@.subrange(pos as int, k as int),
        decreases s.len() - k,
    {
        r.push(s[k]);
        assert(s@.subrange(pos as int, k + 1) =~= s@.subrange(pos as int, k as int).push(
            s@[k as int],
        ));
        k = k + 1;
    }
    assert(s@.subrange(pos as int, s.len() as int) =~= s@.skip(pos as int));
    r
}

/// `key` followed by `'='`.
fn keyed_of(key: &str) -> (r: Vec<char>)
    ensures
        r@ == keyed(key@),
{
    let mut k = chars_of(key);
    k.push('=');
    k
}

/// The value that `key` holds in a configuration file's content: the rest
/// of the first line that starts with `key=`, with every leading `key=`
/// removed; empty where no line does or the file is absent.
pub fn conf_value_of(conf: &Option<String>, key: &str) -> (r: String)
    ensures
        r@ == conf_value(opt_view(*conf), key@),
{
    match conf {
        None => String::new(),
        Some(c) => {
            let cs = chars_of(c.as_str());
            let ls = lines_of(&cs);
            let p = keyed_of(key);
            let mut i: usize = 0;
            assert(views(ls@).skip(0) =~= views(ls@));
            assert(opt_view(*conf) == Some(c@));
            while i < ls.len()
                invariant
                    opt_view(*conf) == Some(c@),
                    i <= ls.len(),
                    p@ == keyed(key@),
                    views(ls@) == lines(c@),
                    conf_lookup(lines(c@), p@) == conf_lookup(views(ls@).skip(i as int), p@),
                decreases ls.len() - i,
            {
                assert(views(ls@).skip(i as int)[0] == ls@[i as int]@);
                assert(views(ls@).skip(i as int).drop_first() =~= views(ls@).skip(i + 1));
                if has_prefix(&ls[i], &p) {
                    let v = strip_repeated_of(&ls[i], &p);
                    assert(conf_lookup(views(ls@).skip(i as int), p@) == strip_repeated(
                        ls@[i as int]@,
                        p@,
                    ));
                    return string_of(&v);
                }
                i = i + 1;
            }
            String::new()
        },
    }
}

/// The value of `key` in `.mcserver.conf`.
pub fn read_conf(dir: &ServerDir, key: &str) -> (r: String)
    ensures
        r@ == conf_value(opt_view(dir.conf), key@),
{
    conf_value_of(&dir.conf, key)
}

/// The RCON password recorded in `.mcserver.conf`.
pub fn rcon_password(dir: &ServerDir) -> (r: String)
    ensures
        r@ == conf_value(opt_view(dir.conf), "rcon_password"@),
{
    read_conf(dir, "rcon_password")
}

/// The RCON port recorded in `.mcserver.conf`.
pub fn rcon_port(dir: &ServerDir) -> (r: String)
    ensures
        r@ == conf_value(opt_view(dir.conf), "rcon_port"@),
{
    read_conf(dir, "rcon_port")
}

/// The content of a configuration file after `key` is set to `value`.
pub fn conf_written_of(conf: &Option<String>, key: &str, value: &str) -> (r: String)
    ensures
        r@ == conf_written(opt_view(*conf), key@, value@),
{
    let cs = match conf {
        Some(c) => chars_of(c.as_str()),
        None => Vec::new(),
    };
    let ls = lines_of(&cs);
    assert(lines(Seq::<char>::empty()) == Seq::<Seq<char>>::empty());
    let p = keyed_of(key);
    let mut kept: Vec<Vec<char>> = Vec::new();
    let mut i: usize = 0;
    assert(views(ls@).skip(0) =~= views(ls@));
    while i < ls.len()
        invariant
            i <= ls.len(),
            p@ == keyed(key@),
            views(kept@) + drop_keyed(views(ls@).skip(i as int), p@) == drop_keyed(views(ls@), p@),
        decreases ls.len() - i,
    {
        let ghost rest = views(ls@).skip(i as int);
        assert(rest[0] == ls@[i as int]@);
        assert(rest.drop_first() =~= views(ls@).skip(i + 1));
        if !has_prefix(&ls[i], &p) {
            let ghost k0 = views(kept@);
            kept.push(ls[i].clone());
            assert(views(kept@) =~= k0.push(ls@[i as int]@));
            assert(k0.push(ls@[i as int]@) + drop_keyed(views(ls@).skip(i + 1), p@) =~= k0 + (
            seq![ls@[i as int]@] + drop_keyed(views(ls@).skip(i + 1), p@)));
        }
        i = i + 1;
    }
    assert(views(ls@).skip(ls.len() as int) =~= Seq::<Seq<char>>::empty());
    assert(views(kept@) + Seq::<Seq<char>>::empty() =~= views(kept@));
    let mut last = p.clone();
    let vs = chars_of(value);
    let mut k: usize = 0;
    while k < vs.len()
        invariant
            k <= vs.len(),
            last@ == p@ + vs@.take(k as int),
        decreases vs.len() - k,
    {
        last.push(vs[k]);
        assert(vs@.take(k + 1) =~= vs@.take(k as int).push(vs@[k as int]));
        k = k + 1;
    }
    assert(vs@.take(vs.len() as int) =~= vs@);
    let ghost k0 = views(kept@);
    kept.push(last);
    assert(views(kept@) =~= k0.push(p@ + value@));
    let mut out = join_lines_of(&kept);
    out.push('\n');
    string_of(&out)
}

/// Everything but `.mcserver.conf` is the same in `a` and `b`.
pub open spec fn same_but_conf(a: ServerDir, b: ServerDir) -> bool {
    &&& a.path == b.path
    &&& a.meta_dir_exists == b.meta_dir_exists
    &&& a.meta == b.meta
    &&& a.properties == b.properties
    &&& a.start_script_exists == b.start_script_exists
    &&& a.start_script == b.start_script
    &&& a.jar_count == b.jar_count
    &&& a.canonical_path == b.canonical_path
    &&& a.java_processes == b.java_processes
}

/// Sets `key` to `value` in `.mcserver.conf`: every line that starts with
/// `key=` is dropped and `key=value` is appended. Returns the new content,
/// which the caller writes to the file.
pub fn write_conf(dir: &mut ServerDir, key: &str, value: &str) -> (text: String)
    ensures
        text@ == conf_written(opt_view(old(dir).conf), key@, value@),
        final(dir).conf == Some(text),
        final(dir).conf_exists,
        same_but_conf(*final(dir), *old(dir)),
{
    let text = conf_written_of(&dir.conf, key, value);
    dir.conf = Some(text.clone());
    dir.conf_exists = true;
    text
}

} // verus!

verus! {

/// Lines that do not start with `p` are passed over by the lookup, and
/// so are lines that merely lose a final `'\r'`.
proof fn lemma_lookup_skips(a: Seq<Seq<char>>, b: Seq<Seq<char>>, p: Seq<char>)
    requires
        forall|i: int| 0 <= i < a.len() ==> !is_prefix(p, #[trigger] a[i]),
    ensures
        conf_lookup(a + b, p) == conf_lookup(b, p),
    decreases a.len(),
{
    if a.len() > 0 {
        assert((a + b)[0] == a[0]);
        assert((a + b).drop_first() =~= a.drop_first() + b);
        lemma_lookup_skips(a.drop_first(), b, p);
    } else {
        assert(a + b =~= b);
    }
}

/// The lines kept by `drop_keyed`, less a final `'\r'`, do not start
/// with `p`; nor do they hold a character that none of `ls` holds.
proof fn lemma_drop_keyed_props(ls: Seq<Seq<char>>, p: Seq<char>, c: char)
    ensures
        forall|i: int|
            0 <= i < drop_keyed(ls, p).len() ==> !is_prefix(
                p,
                #[trigger] strip_cr(drop_keyed(ls, p)[i]),
            ),
        none_holds(ls, c) ==> none_holds(drop_keyed(ls, p), c),
        drop_keyed(ls, p).len() <= ls.len(),
    decreases ls.len(),
{
    if ls.len() > 0 {
        lemma_drop_keyed_props(ls.drop_first(), p, c);
        let d = drop_keyed(ls, p);
        let r = drop_keyed(ls.drop_first(), p);
        if none_holds(ls, c) {
            assert forall|i: int| 0 <= i < ls.drop_first().len() implies !(
            #[trigger] ls.drop_first()[i]).contains(c) by {
                assert(ls.drop_first()[i] == ls[i + 1]);
            }
        }
        if !is_prefix(p, ls[0]) {
            lemma_strip_cr_prefix(ls[0], p);
            assert forall|i: int| 0 <= i < d.len() implies !is_prefix(p, #[trigger] strip_cr(d[i])) by {
                if i > 0 {
                    assert(d[i] == r[i - 1]);
                }
            }
            if none_holds(ls, c) {
                assert forall|i: int| 0 <= i < d.len() implies !(#[trigger] d[i]).contains(c) by {
                    if i > 0 {
                        assert(d[i] == r[i - 1]);
                    } else {
                        assert(d[0] == ls[0]);
                    }
                }
            }
        }
    }
}

/// `strip_repeated` of `p + v` where `v` does not start with `p` is `v`.
proof fn lemma_strip_repeated_once(p: Seq<char>, v: Seq<char>)
    requires
        p.len() > 0,
        !is_prefix(p, v),
    ensures
        strip_repeated(p + v, p) == v,
{
    assert((p + v).take(p.len() as int) =~= p);
    assert((p + v).skip(p.len() as int) =~= v);
    assert(strip_repeated(v, p) == v);
}

/// The lines of what `write_conf` writes: the kept lines (less a final
/// `'\r'`) and then `key=value`.
proof fn lemma_conf_written_lines(conf: Option<Seq<char>>, key: Seq<char>, value: Seq<char>)
    requires
        !key.contains('\n'),
        !value.contains('\n'),
    ensures
        ({
            let old_lines = match conf {
                Some(c) => lines(c),
                None => seq![],
            };
            let kept = drop_keyed(old_lines, keyed(key));
            lines(conf_written(conf, key, value)) == kept.push(keyed(key) + value).map_values(
                |l: Seq<char>| strip_cr(l),
            )
        }),
{
    let old_lines = match conf {
        Some(c) => lines(c),
        None => seq![],
    };
    match conf {
        Some(c) => lemma_lines_no_newline(c),
        None => {},
    }
    let p = keyed(key);
    let kept = drop_keyed(old_lines, p);
    lemma_drop_keyed_props(old_lines, p, '\n');
    let ls = kept.push(p + value);
    assert(none_holds(ls, '\n')) by {
        assert forall|i: int| 0 <= i < ls.len() implies !(#[trigger] ls[i]).contains('\n') by {
            if i < kept.len() {
                assert(ls[i] == kept[i]);
            } else {
                assert(ls[i] == p + value);
                if (p + value).contains('\n') {
                    let k = choose|k: int| 0 <= k < (p + value).len() && (p + value)[k] == '\n';
                    if k < key.len() {
                        assert(key[k] == '\n');
                    } else if k > key.len() {
                        assert(value[k - key.len() - 1] == '\n');
                    }
                }
            }
        }
    }
    lemma_join_terminated(ls);
    lemma_lines_terminated(ls);
}

/// Reading back a key of `.mcserver.conf` after writing it gives the value
/// written, where the key and value hold no line break, the value does not
/// end in `'\r'` and does not itself begin with `key=`.
pub proof fn law_conf_read_after_write(conf: Option<Seq<char>>, key: Seq<char>, value: Seq<char>)
    requires
        !key.contains('\n'),
        !value.contains('\n'),
        !(value.len() > 0 && value.last() == '\r'),
        !is_prefix(keyed(key), value),
    ensures
        conf_value(Some(conf_written(conf, key, value)), key) == value,
{
    let old_lines = match conf {
        Some(c) => lines(c),
        None => seq![],
    };
    let p = keyed(key);
    let kept = drop_keyed(old_lines, p);
    lemma_conf_written_lines(conf, key, value);
    lemma_drop_keyed_props(old_lines, p, '\n');
    let last = p + value;
    let mapped = kept.push(last).map_values(|l: Seq<char>| strip_cr(l));
    let a = kept.map_values(|l: Seq<char>| strip_cr(l));
    assert(last.last() == (if value.len() > 0 {
        value.last()
    } else {
        '='
    }));
    assert(strip_cr(last) == last);
    assert(mapped =~= a + seq![last]);
    assert forall|i: int| 0 <= i < a.len() implies !is_prefix(p, #[trigger] a[i]) by {
        assert(a[i] == strip_cr(kept[i]));
    }
    lemma_lookup_skips(a, seq![last], p);
    assert(last.take(p.len() as int) =~= p);
    assert(seq![last].drop_first() =~= Seq::<Seq<char>>::empty());
    lemma_strip_repeated_once(p, value);
}

/// `key=` and `other=` cannot both begin a line where the keys differ and
/// hold no `'='`.
proof fn lemma_keys_exclusive(key: Seq<char>, other: Seq<char>, l: Seq<char>)
    requires
        !key.contains('='),
        !other.contains('='),
        key != other,
        is_prefix(keyed(key), l),
    ensures
        !is_prefix(keyed(other), l),
{
    if is_prefix(keyed(other), l) {
        let n = key.len() as int;
        let m = other.len() as int;
        assert(l.take(n + 1)[n] == l[n]);
        assert(keyed(key)[n] == '=');
        assert(l[n] == '=');
        assert(l.take(m + 1)[m] == l[m]);
        assert(keyed(other)[m] == '=');
        assert(l[m] == '=');
        if n < m {
            assert(l.take(m + 1)[n] == l[n]);
            assert(keyed(other)[n] == other[n]);
            assert(l[n] == other[n]);
            assert(other.contains('='));
        } else if m < n {
            assert(l.take(n + 1)[m] == l[m]);
            assert(keyed(key)[m] == key[m]);
            assert(l[m] == key[m]);
            assert(key.contains('='));
        } else {
            assert forall|i: int| 0 <= i < n implies key[i] == other[i] by {
                assert(l.take(n + 1)[i] == l[i]);
                assert(l.take(m + 1)[i] == l[i]);
                assert(keyed(key)[i] == key[i]);
                assert(keyed(other)[i] == other[i]);
            }
            assert(key =~= other);
        }
    }
}

/// The first line that starts with `p`, if one does.
pub open spec fn first_keyed(ls: Seq<Seq<char>>, p: Seq<char>) -> Option<Seq<char>>
    decreases ls.len(),
{
    if ls.len() == 0 {
        None
    } else if is_prefix(p, ls[0]) {
        Some(ls[0])
    } else {
        first_keyed(ls.drop_first(), p)
    }
}

proof fn lemma_other_key_kept(
    ls: Seq<Seq<char>>,
    key: Seq<char>,
    other: Seq<char>,
    tail: Seq<Seq<char>>,
)
    requires
        !key.contains('='),
        !other.contains('='),
        key != other,
        forall|i: int| 0 <= i < tail.len() ==> !is_prefix(keyed(other), #[trigger] tail[i]),
        match first_keyed(ls, keyed(other)) {
            Some(l) => !(l.len() > 0 && l.last() == '\r'),
            None => true,
        },
    ensures
        conf_lookup(
            drop_keyed(ls, keyed(key)).map_values(|l: Seq<char>| strip_cr(l)) + tail,
            keyed(other),
        ) == conf_lookup(ls, keyed(other)),
    decreases ls.len(),
{
    let p = keyed(key);
    let q = keyed(other);
    let f = |l: Seq<char>| strip_cr(l);
    if ls.len() == 0 {
        assert(drop_keyed(ls, p).map_values(f) + tail =~= tail);
        lemma_lookup_skips(tail, seq![], q);
        assert(tail + Seq::<Seq<char>>::empty() =~= tail);
    } else {
        let l = ls[0];
        let rest = drop_keyed(ls.drop_first(), p);
        if is_prefix(q, l) {
            lemma_keys_exclusive(other, key, l);
            assert(drop_keyed(ls, p) == seq![l] + rest);
            assert(strip_cr(l) == l);
            let whole = drop_keyed(ls, p).map_values(f) + tail;
            assert(whole[0] == l);
        } else {
            lemma_other_key_kept(ls.drop_first(), key, other, tail);
            if is_prefix(p, l) {
                assert(drop_keyed(ls, p) == rest);
            } else {
                lemma_strip_cr_prefix(l, q);
                assert(drop_keyed(ls, p).map_values(f) + tail =~= seq![strip_cr(l)] + (
                rest.map_values(f) + tail));
                lemma_lookup_skips(seq![strip_cr(l)], rest.map_values(f) + tail, q);
            }
        }
    }
}

/// Writing one key of `.mcserver.conf` leaves the value of every other key
/// as it was, where neither key holds `'='` or a line break, the value
/// holds no line break, and the line that held the other key did not end
/// in `'\r'`.
pub proof fn law_conf_write_keeps_other_keys(
    conf: Option<Seq<char>>,
    key: Seq<char>,
    value: Seq<char>,
    other: Seq<char>,
)
    requires
        !key.contains('='),
        !other.contains('='),
        !key.contains('\n'),
        !value.contains('\n'),
        key != other,
        match conf {
            Some(c) => match first_keyed(lines(c), keyed(other)) {
                Some(l) => !(l.len() > 0 && l.last() == '\r'),
                None => true,
            },
            None => true,
        },
    ensures
        conf_value(Some(conf_written(conf, key, value)), other) == conf_value(conf, other),
{
    let old_lines = match conf {
        Some(c) => lines(c),
        None => seq![],
    };
    let p = keyed(key);
    let last = p + value;
    lemma_conf_written_lines(conf, key, value);
    let f = |l: Seq<char>| strip_cr(l);
    let kept = drop_keyed(old_lines, p);
    assert(kept.push(last).map_values(f) =~= kept.map_values(f) + seq![strip_cr(last)]);
    lemma_strip_cr_prefix(last, keyed(other));
    assert(last.take(p.len() as int) =~= p);
    lemma_keys_exclusive(key, other, last);
    assert forall|i: int| 0 <= i < seq![strip_cr(last)].len() implies !is_prefix(
        keyed(other),
        #[trigger] seq![strip_cr(last)][i],
    ) by {}
    lemma_other_key_kept(old_lines, key, other, seq![strip_cr(last)]);
    if conf is None {
        assert(first_keyed(Seq::<Seq<char>>::empty(), keyed(other)) is None);
        assert(conf_lookup(Seq::<Seq<char>>::empty(), keyed(other)) == Seq::<char>::empty());
    }
}

proof fn lemma_first_keyed_last(a: Seq<Seq<char>>, p: Seq<char>, x: Seq<char>)
    requires
        forall|i: int| 0 <= i < a.len() ==> !is_prefix(p, #[trigger] a[i]),
        is_prefix(p, x),
    ensures
        first_keyed(a.push(x), p) == Some(x),
    decreases a.len(),
{
    if a.len() > 0 {
        assert(a.push(x).drop_first() =~= a.drop_first().push(x));
        assert forall|i: int| 0 <= i < a.drop_first().len() implies !is_prefix(
            p,
            #[trigger] a.drop_first()[i],
        ) by {
            assert(a.drop_first()[i] == a[i + 1]);
        }
        assert(!is_prefix(p, a[0]));
        lemma_first_keyed_last(a.drop_first(), p, x);
    }
}

/// After `key=value` is written, the first line holding `key` is
/// `key=value`.
proof fn lemma_first_keyed_written(conf: Option<Seq<char>>, key: Seq<char>, value: Seq<char>)
    requires
        !key.contains('\n'),
        !value.contains('\n'),
        !(value.len() > 0 && value.last() == '\r'),
    ensures
        first_keyed(lines(conf_written(conf, key, value)), keyed(key)) == Some(keyed(key) + value),
{
    let old_lines = match conf {
        Some(c) => lines(c),
        None => seq![],
    };
    let p = keyed(key);
    let last = p + value;
    lemma_conf_written_lines(conf, key, value);
    lemma_drop_keyed_props(old_lines, p, '\n');
    let f = |l: Seq<char>| strip_cr(l);
    let kept = drop_keyed(old_lines, p);
    assert(kept.push(last).map_values(f) =~= kept.map_values(f).push(strip_cr(last)));
    assert(last.last() != '\r') by {
        if value.len() == 0 {
            assert(last.last() == '=');
        } else {
            assert(last.last() == value.last());
        }
    }
    assert(strip_cr(last) == last);
    assert(last.take(p.len() as int) =~= p);
    assert forall|i: int| 0 <= i < kept.map_values(f).len() implies !is_prefix(
        p,
        #[trigger] kept.map_values(f)[i],
    ) by {}
    lemma_first_keyed_last(kept.map_values(f), p, last);
}

/// Writing `key1=value1` and then `key2=value2` to `.mcserver.conf`, each
/// key is read back with its value: where the keys differ and hold neither
/// `=` nor a line break, and each value holds no line break, does not end
/// in `'\r'` and does not itself begin with its `key=`.
pub proof fn law_conf_two_writes(
    conf: Option<Seq<char>>,
    key1: Seq<char>,
    value1: Seq<char>,
    key2: Seq<char>,
    value2: Seq<char>,
)
    requires
        key1 != key2,
        !key1.contains('='),
        !key2.contains('='),
        !key1.contains('\n'),
        !key2.contains('\n'),
        !value1.contains('\n'),
        !value2.contains('\n'),
        !(value1.len() > 0 && value1.last() == '\r'),
        !(value2.len() > 0 && value2.last() == '\r'),
        !is_prefix(keyed(key1), value1),
        !is_prefix(keyed(key2), value2),
    ensures
        ({
            let after = conf_written(Some(conf_written(conf, key1, value1)), key2, value2);
            &&& conf_value(Some(after), key1) == value1
            &&& conf_value(Some(after), key2) == value2
        }),
{
    let first = conf_written(conf, key1, value1);
    law_conf_read_after_write(conf, key1, value1);
    law_conf_read_after_write(Some(first), key2, value2);
    lemma_first_keyed_written(conf, key1, value1);
    let l = keyed(key1) + value1;
    assert(!(l.len() > 0 && l.last() == '\r')) by {
        if value1.len() == 0 {
            assert(l.last() == '=');
        } else {
            assert(l.last() == value1.last());
        }
    }
    law_conf_write_keeps_other_keys(Some(first), key2, value2, key1);
}

} // verus!

verus! {

/// The software the server runs (`fastmc/type`), e.g. `paper`.
pub fn server_type(dir: &ServerDir) -> (r: String)
    ensures
        r@ == meta_value(meta_pairs(dir.meta@), "type"@),
{
    read_meta(dir, "type")
}

/// The Minecraft version of the server (`fastmc/version`).
pub fn server_version(dir: &ServerDir) -> (r: String)
    ensures
        r@ == meta_value(meta_pairs(dir.meta@), "version"@),
{
    read_meta(dir, "version")
}

/// The notes kept for the server (`fastmc/notes`).
pub fn server_notes(dir: &ServerDir) -> (r: String)
    ensures
        r@ == meta_value(meta_pairs(dir.meta@), "notes"@),
{
    read_meta(dir, "notes")
}

/// The port chosen for the server (`fastmc/port`).
pub fn server_port(dir: &ServerDir) -> (r: String)
    ensures
        r@ == meta_value(meta_pairs(dir.meta@), "port"@),
{
    read_meta(dir, "port")
}

/// `white-list=`, how the whitelist line of `server.properties` starts.
pub open spec fn wl_prefix() -> Seq<char> {
    seq!['w', 'h', 'i', 't', 'e', '-', 'l', 'i', 's', 't', '=']
}

/// `true` or `false`, as `bool` is displayed.
pub open spec fn bool_text(b: bool) -> Seq<char> {
    if b {
        seq!['t', 'r', 'u', 'e']
    } else {
        seq!['f', 'a', 'l', 's', 'e']
    }
}

/// The second `'='`-separated field of `t` (`t.split('=').nth(1)`), where
/// `t` holds an `'='`.
pub open spec fn second_field(t: Seq<char>) -> Seq<char> {
    let rest = t.skip(index_of(t, '=') + 1 as int);
    rest.take(index_of(rest, '=') as int)
}

/// Whether the first line whose trimmed text starts with `white-list=`
/// says `true`; false where no line does.
pub open spec fn whitelist_in_lines(ls: Seq<Seq<char>>) -> bool
    decreases ls.len(),
{
    if ls.len() == 0 {
        false
    } else if is_prefix(wl_prefix(), trim(ls[0])) {
        second_field(trim(ls[0])) == bool_text(true)
    } else {
        whitelist_in_lines(ls.drop_first())
    }
}

/// Whether `server.properties`, where it could be read, enables the
/// whitelist.
pub open spec fn whitelist_on(props: Option<Seq<char>>) -> bool {
    match props {
        Some(c) => whitelist_in_lines(lines(c)),
        None => false,
    }
}

/// `p` occurs somewhere in `s`.
pub open spec fn occurs(p: Seq<char>, s: Seq<char>) -> bool {
    exists|i: int| 0 <= i <= s.len() && #[trigger] is_prefix(p, s.skip(i))
}

/// A line rewritten to `white-list=<enabled>` where its trimmed text
/// starts with `white-list=`.
pub open spec fn wl_rewrite(l: Seq<char>, enabled: bool) -> Seq<char> {
    if is_prefix(wl_prefix(), trim(l)) {
        wl_prefix() + bool_text(enabled)
    } else {
        l
    }
}

/// `server.properties` after the whitelist is switched: where the text
/// holds `white-list=`, every line whose trimmed text starts with it
/// becomes `white-list=<enabled>` and the lines are joined by newlines;
/// otherwise `white-list=<enabled>` is appended on a new line.
pub open spec fn whitelist_set(c: Seq<char>, enabled: bool) -> Seq<char> {
    if occurs(wl_prefix(), c) {
        join_lines(lines(c).map_values(|l: Seq<char>| wl_rewrite(l, enabled)))
    } else {
        c + seq!['\n'] + wl_prefix() + bool_text(enabled)
    }
}

fn wl_prefix_of() -> (r: Vec<char>)
    ensures
        r@ == wl_prefix(),
{
    let r = chars_of("white-list=");
    proof {
        reveal_strlit("white-list=");
    }
    assert(r@ =~= wl_prefix());
    r
}

fn bool_text_of(b: bool) -> (r: Vec<char>)
    ensures
        r@ == bool_text(b),
{
    let r = if b {
        let t = chars_of("true");
        proof {
            reveal_strlit("true");
        }
        t
    } else {
        let f = chars_of("false");
        proof {
            reveal_strlit("false");
        }
        f
    };
    assert(r@ =~= bool_text(b));
    r
}

/// Whether `p` occurs in `s`.
pub fn occurs_in(s: &Vec<char>, p: &Vec<char>) -> (r: bool)
    ensures
        r == occurs(p@, s@),
{
    let mut i: usize = 0;
    while i < s.len()
        invariant
            i <= s.len(),
            forall|k: int| 0 <= k < i ==> !is_prefix(p@, #[trigger] s@.skip(k)),
        decreases s.len() - i,
    {
        if has_prefix_at(s, i, p) {
            return true;
        }
        i = i + 1;
    }
    if has_prefix_at(s, i, p) {
        return true;
    }
    assert forall|k: int| 0 <= k <= s@.len() implies !#[trigger] is_prefix(p@, s@.skip(k)) by {}
    false
}

/// `t.split('=').nth(1)` for a `t` that holds `'='`.
fn second_field_of(t: &Vec<char>) -> (r: Vec<char>)
    requires
        t@.contains('='),
    ensures
        r@ == second_field(t@),
{
    assert(t@.skip(0) =~= t@);
    let a = find_char_from(t, 0, '=');
    proof {
        lemma_index_of_bounds(t@, '=');
    }
    let b = find_char_from(t, a + 1, '=');
    let mut r: Vec<char> = Vec::new();
    let mut k = a + 1;
    while k < b
        invariant
            a + 1 <= k <= b <= t.len(),
            r@ == t@.subrange(a + 1, k as int),
        decreases b - k,
    {
        r.push(t[k]);
        assert(t@.subrange(a + 1, k + 1) =~= t@.subrange(a + 1, k as int).push(t@[k as int]));
        k = k + 1;
    }
    assert(t@.skip(a + 1).take((b - a - 1) as int) =~= t@.subrange(a + 1, b as int));
    r
}

/// Whether the whitelist is switched on in `server.properties`.
pub fn whitelist_enabled(dir: &ServerDir) -> (r: bool)
    ensures
        r == whitelist_on(opt_view(dir.properties)),
{
    match &dir.properties {
        None => false,
        Some(c) => {
            let cs = chars_of(c.as_str());
            let ls = lines_of(&cs);
            let p = wl_prefix_of();
            let tv = bool_text_of(true);
            let mut i: usize = 0;
            assert(views(ls@).skip(0) =~= views(ls@));
            assert(opt_view(dir.properties) == Some(c@));
            while i < ls.len()
                invariant
                    opt_view(dir.properties) == Some(c@),
                    i <= ls.len(),
                    p@ == wl_prefix(),
                    tv@ == bool_text(true),
                    views(ls@) == lines(c@),
                    whitelist_in_lines(lines(c@)) == whitelist_in_lines(views(ls@).skip(i as int)),
                decreases ls.len() - i,
            {
                assert(views(ls@).skip(i as int)[0] == ls@[i as int]@);
                assert(views(ls@).skip(i as int).drop_first() =~= views(ls@).skip(i + 1));
                let (a, b) = trim_bounds(&ls[i]);
                let mut t: Vec<char> = Vec::new();
                let mut k = a;
                while k < b
                    invariant
                        i < ls.len(),
                        a <= k <= b <= ls@[i as int].len(),
                        t@ == ls@[i as int]@.subrange(a as int, k as int),
                    decreases b - k,
                {
                    t.push(ls[i][k]);
                    assert(ls@[i as int]@.subrange(a as int, k + 1) =~= ls@[i as int]@.subrange(
                        a as int,
                        k as int,
                    ).push(ls@[i as int]@[k as int]));
                    k = k + 1;
                }
                assert(t@ == trim(ls@[i as int]@));
                if has_prefix(&t, &p) {
                    assert(t@.take(11)[10] == '=');
                    assert(t@.contains('='));
                    let f = second_field_of(&t);
                    return chars_eq(&f, &tv);
                }
                i = i + 1;
            }
            false
        },
    }
}

/// Why `server.properties` could not be changed.
#[derive(PartialEq, Eq, Structural, Debug, Clone, Copy)]
pub enum PropertiesError {
    /// The file is missing or could not be read.
    Unreadable,
}

/// Switches the whitelist in `server.properties` and returns the new
/// content, which the caller writes to the file; fails where the file
/// could not be read.
pub fn set_whitelist(dir: &mut ServerDir, enabled: bool) -> (r: Result<String, PropertiesError>)
    ensures
        old(dir).properties is None ==> r is Err && *final(dir) == *old(dir),
        old(dir).properties matches Some(c) ==> r matches Ok(t) && t@ == whitelist_set(c@, enabled)
            && final(dir).properties == Some(t),
        final(dir).path == old(dir).path,
        final(dir).meta == old(dir).meta,
        final(dir).conf == old(dir).conf,
{
    let c = match &dir.properties {
        None => {
            return Err(PropertiesError::Unreadable);
        },
        Some(c) => chars_of(c.as_str()),
    };
    let p = wl_prefix_of();
    let bt = bool_text_of(enabled);
    let mut out: Vec<char> = Vec::new();
    if occurs_in(&c, &p) {
        let ls = lines_of(&c);
        let mut mapped: Vec<Vec<char>> = Vec::new();
        let mut i: usize = 0;
        while i < ls.len()
            invariant
                i <= ls.len(),
                p@ == wl_prefix(),
                bt@ == bool_text(enabled),
                views(mapped@) == views(ls@).take(i as int).map_values(
                    |l: Seq<char>| wl_rewrite(l, enabled),
                ),
            decreases ls.len() - i,
        {
            let (a, b) = trim_bounds(&ls[i]);
            let mut t: Vec<char> = Vec::new();
            let mut k = a;
            while k < b
                invariant
                    i < ls.len(),
                    a <= k <= b <= ls@[i as int].len(),
                    t@ == ls@[i as int]@.subrange(a as int, k as int),
                decreases b - k,
            {
                t.push(ls[i][k]);
                assert(ls@[i as int]@.subrange(a as int, k + 1) =~= ls@[i as int]@.subrange(
                    a as int,
                    k as int,
                ).push(ls@[i as int]@[k as int]));
                k = k + 1;
            }
            let line = if has_prefix(&t, &p) {
                let mut l = p.clone();
                let mut j: usize = 0;
                while j < bt.len()
                    invariant
                        j <= bt.len(),
                        l@ == p@ + bt@.take(j as int),
                    decreases bt.len() - j,
                {
                    l.push(bt[j]);
                    assert(bt@.take(j + 1) =~= bt@.take(j as int).push(bt@[j as int]));
                    j = j + 1;
                }
                assert(bt@.take(bt.len() as int) =~= bt@);
                l
            } else {
                ls[i].clone()
            };
            let ghost m0 = views(mapped@);
            mapped.push(line);
            assert(views(mapped@) =~= m0.push(line@));
            assert(views(ls@).take(i + 1) =~= views(ls@).take(i as int).push(ls@[i as int]@));
            assert(views(ls@).take(i + 1).map_values(|l: Seq<char>| wl_rewrite(l, enabled))
                =~= views(ls@).take(i as int).map_values(|l: Seq<char>| wl_rewrite(l, enabled)).push(
                wl_rewrite(ls@[i as int]@, enabled),
            ));
            i = i + 1;
        }
        assert(views(ls@).take(ls.len() as int) =~= views(ls@));
        out = join_lines_of(&mapped);
    } else {
        out = c.clone();
        out.push('\n');
        let mut j: usize = 0;
        let ghost base = out@;
        let mut tail = p.clone();
        let mut q: usize = 0;
        while q < bt.len()
            invariant
                q <= bt.len(),
                tail@ == p@ + bt@.take(q as int),
            decreases bt.len() - q,
        {
            tail.push(bt[q]);
            assert(bt@.take(q + 1) =~= bt@.take(q as int).push(bt@[q as int]));
            q = q + 1;
        }
        assert(bt@.take(bt.len() as int) =~= bt@);
        while j < tail.len()
            invariant
                j <= tail.len(),
                out@ == base + tail@.take(j as int),
            decreases tail.len() - j,
        {
            out.push(tail[j]);
            assert(tail@.take(j + 1) =~= tail@.take(j as int).push(tail@[j as int]));
            j = j + 1;
        }
        assert(tail@.take(tail.len() as int) =~= tail@);
        assert(out@ =~= c@ + seq!['\n'] + wl_prefix() + bool_text(enabled));
    }
    let text = string_of(&out);
    dir.properties = Some(text.clone());
    Ok(text)
}

} // verus!

verus! {

/// Dropping a final whitespace character does not change `trim`.
pub proof fn lemma_trim_drop_ws(l: Seq<char>)
    requires
        l.len() > 0,
        is_ws(l.last()),
    ensures
        trim(l.drop_last()) == trim(l),
    decreases l.len(),
{
    if is_ws(l[0]) {
        if l.len() == 1 {
            assert(l.drop_last() =~= Seq::<char>::empty());
            assert(l.drop_first() =~= Seq::<char>::empty());
            assert(trim_start(Seq::<char>::empty()) == Seq::<char>::empty());
            assert(trim_end(Seq::<char>::empty()) == Seq::<char>::empty());
        } else {
            let d = l.drop_first();
            assert(d.last() == l.last());
            lemma_trim_drop_ws(d);
            assert(l.drop_last()[0] == l[0]);
            assert(l.drop_last().drop_first() =~= d.drop_last());
        }
    } else {
        assert(l.len() > 1) by {
            if l.len() == 1 {
                assert(l.last() == l[0]);
            }
        }
        assert(l.drop_last()[0] == l[0]);
        assert(trim_start(l) == l);
        assert(trim_start(l.drop_last()) == l.drop_last());
    }
}

/// `trim` keeps the same text of a line less its final `'\r'`.
proof fn lemma_trim_strip_cr(l: Seq<char>)
    ensures
        trim(strip_cr(l)) == trim(l),
{
    if l.len() > 0 && l.last() == '\r' {
        assert(is_ws('\r'));
        lemma_trim_drop_ws(l);
    }
}

/// Where the first line whose trimmed text starts with `white-list=` is
/// at `j`, the whitelist switch reads that line.
proof fn lemma_whitelist_first(ls: Seq<Seq<char>>, j: int)
    requires
        0 <= j < ls.len(),
        forall|k: int| 0 <= k < j ==> !is_prefix(wl_prefix(), trim(#[trigger] ls[k])),
        is_prefix(wl_prefix(), trim(ls[j])),
    ensures
        whitelist_in_lines(ls) == (second_field(trim(ls[j])) == bool_text(true)),
    decreases j,
{
    if j > 0 {
        assert forall|k: int| 0 <= k < j - 1 implies !is_prefix(
            wl_prefix(),
            trim(#[trigger] ls.drop_first()[k]),
        ) by {
            assert(ls.drop_first()[k] == ls[k + 1]);
        }
        lemma_whitelist_first(ls.drop_first(), j - 1);
    }
}

/// Where no line's trimmed text starts with `white-list=`, the whitelist
/// is off.
proof fn lemma_whitelist_none(ls: Seq<Seq<char>>)
    requires
        forall|k: int| 0 <= k < ls.len() ==> !is_prefix(wl_prefix(), trim(#[trigger] ls[k])),
    ensures
        !whitelist_in_lines(ls),
    decreases ls.len(),
{
    if ls.len() > 0 {
        assert forall|k: int| 0 <= k < ls.drop_first().len() implies !is_prefix(
            wl_prefix(),
            trim(#[trigger] ls.drop_first()[k]),
        ) by {
            assert(ls.drop_first()[k] == ls[k + 1]);
        }
        lemma_whitelist_none(ls.drop_first());
    }
}

/// An occurrence within a suffix is an occurrence.
proof fn lemma_occurs_skip(t: Seq<char>, s: Seq<char>, k: int)
    requires
        0 <= k <= s.len(),
        occurs(t, s.skip(k)),
    ensures
        occurs(t, s),
{
    let i = choose|i: int| 0 <= i <= s.skip(k).len() && #[trigger] is_prefix(t, s.skip(k).skip(i));
    assert(s.skip(k).skip(i) =~= s.skip(k + i));
    assert(is_prefix(t, s.skip(k + i)));
}

/// Occurrence is transitive.
proof fn lemma_occurs_trans(a: Seq<char>, b: Seq<char>, c: Seq<char>)
    requires
        occurs(a, b),
        occurs(b, c),
    ensures
        occurs(a, c),
{
    let i = choose|i: int| 0 <= i <= b.len() && #[trigger] is_prefix(a, b.skip(i));
    let j = choose|j: int| 0 <= j <= c.len() && #[trigger] is_prefix(b, c.skip(j));
    assert(c.skip(j).take(b.len() as int) == b);
    assert(c.skip(j + i).take(a.len() as int) =~= b.skip(i).take(a.len() as int));
    assert(is_prefix(a, c.skip(j + i)));
}

/// `trim_end` keeps a prefix.
proof fn lemma_trim_end_prefix(t: Seq<char>)
    ensures
        trim_end(t).len() <= t.len(),
        trim_end(t) == t.take(trim_end(t).len() as int),
    decreases t.len(),
{
    if t.len() > 0 && is_ws(t.last()) {
        lemma_trim_end_prefix(t.drop_last());
        assert(t.drop_last().take(trim_end(t).len() as int) =~= t.take(trim_end(t).len() as int));
    } else {
        assert(t.take(t.len() as int) =~= t);
    }
}

/// The trimmed text of a line occurs in it.
proof fn lemma_trim_occurs(l: Seq<char>)
    ensures
        occurs(trim(l), l),
{
    crate::text::lemma_trim_start_suffix(l);
    let t = trim_start(l);
    lemma_trim_end_prefix(t);
    let k = l.len() - t.len();
    assert(is_prefix(trim(l), l.skip(k)));
}

/// Every line that `lines` yields occurs in the text.
proof fn lemma_lines_occur(s: Seq<char>)
    ensures
        forall|j: int| 0 <= j < lines(s).len() ==> occurs(#[trigger] lines(s)[j], s),
    decreases s.len(),
{
    if s.len() > 0 {
        let i = index_of(s, '\n');
        lemma_index_of_bounds(s, '\n');
        let whole = if i < s.len() {
            s.take(i as int)
        } else {
            s
        };
        lemma_strip_cr_prefix(whole, seq![]);
        let first = strip_cr(whole);
        assert(s.skip(0) =~= s);
        assert(s.take(first.len() as int) =~= first) by {
            assert forall|k: int| 0 <= k < first.len() implies s.take(first.len() as int)[k]
                == first[k] by {
                assert(first[k] == whole[k]);
            }
        }
        assert(is_prefix(first, s.skip(0)));
        if i < s.len() {
            let rest = s.skip(i + 1 as int);
            lemma_lines_occur(rest);
            assert forall|j: int| 0 <= j < lines(s).len() implies occurs(#[trigger] lines(s)[j], s) by {
                if j > 0 {
                    assert(lines(s)[j] == lines(rest)[j - 1]);
                    lemma_occurs_skip(lines(s)[j], s, i + 1 as int);
                } else {
                    assert(lines(s)[0] == first);
                }
            }
        } else {
            assert forall|j: int| 0 <= j < lines(s).len() implies occurs(#[trigger] lines(s)[j], s) by {
                assert(lines(s)[j] == s);
                assert(s.take(s.len() as int) =~= s);
                assert(is_prefix(s, s.skip(0)));
            }
        }
    }
}

/// Switching the whitelist and reading it back gives the switch as set,
/// where the properties either do not mention `white-list=` or have a line
/// whose trimmed text starts with it.
pub proof fn law_whitelist_toggle(c: Seq<char>, enabled: bool)
    requires
        occurs(wl_prefix(), c) ==> exists|j: int|
            0 <= j < lines(c).len() && is_prefix(wl_prefix(), trim(#[trigger] lines(c)[j])),
    ensures
        whitelist_on(Some(whitelist_set(c, enabled))) == enabled,
{
    let wl = wl_prefix();
    let line = wl + bool_text(enabled);
    assert(!line.contains('\n')) by {
        if line.contains('\n') {
            let k = choose|k: int| 0 <= k < line.len() && line[k] == '\n';
        }
    }
    assert(trim(line) == line) by {
        assert(!is_ws(line[0]));
        assert(!is_ws(line.last()));
        assert(trim_start(line) == line);
        assert(trim_end(line) == line);
    }
    assert(is_prefix(wl, line)) by {
        assert(line.take(11) =~= wl);
    }
    assert(second_field(line) == bool_text(enabled)) by {
        lemma_index_of_bounds(line, '=');
        crate::text::lemma_index_of(line, '=', 10);
        let rest = line.skip(11);
        assert(rest =~= bool_text(enabled));
        crate::text::lemma_index_of(rest, '=', rest.len() as int);
        assert(rest.take(rest.len() as int) =~= rest);
    }
    assert(bool_text(enabled) == bool_text(true) <==> enabled) by {
        if !enabled {
            assert(bool_text(false).len() != bool_text(true).len());
        }
    }
    assert(strip_cr(line) == line);
    if occurs(wl, c) {
        let ls = lines(c);
        let m = ls.map_values(|l: Seq<char>| wl_rewrite(l, enabled));
        let j0 = choose|j: int| 0 <= j < ls.len() && is_prefix(wl, trim(#[trigger] ls[j]));
        let j = choose_first(ls, j0);
        lemma_lines_no_newline(c);
        assert(none_holds(m, '\n')) by {
            assert forall|i: int| 0 <= i < m.len() implies !(#[trigger] m[i]).contains('\n') by {
                assert(!ls[i].contains('\n'));
            }
        }
        crate::text::lemma_lines_join(m);
        let out = lines(join_lines(m));
        assert(m[j] == line);
        assert(out.len() > j) by {
            if j == m.len() - 1 {
                assert(m.last() == line);
                assert(line.len() > 0);
            }
        }
        assert forall|k: int| 0 <= k < j implies !is_prefix(wl, trim(#[trigger] out[k])) by {
            assert(out[k] == strip_cr(m[k]));
            assert(m[k] == ls[k]);
            lemma_trim_strip_cr(ls[k]);
        }
        assert(out[j] == line);
        lemma_whitelist_first(out, j);
        assert(whitelist_set(c, enabled) == join_lines(m));
    } else {
        let u = c + seq!['\n'];
        assert(whitelist_set(c, enabled) =~= u + line);
        crate::text::lemma_lines_append(u, line);
        crate::text::lemma_lines_single(line);
        let lu = lines(u);
        lemma_lines_occur(u);
        assert forall|k: int| 0 <= k < lu.len() implies !is_prefix(wl, trim(#[trigger] lu[k])) by {
            if is_prefix(wl, trim(lu[k])) {
                lemma_trim_occurs(lu[k]);
                assert(trim(lu[k]).skip(0) =~= trim(lu[k]));
                assert(occurs(wl, trim(lu[k])));
                lemma_occurs_trans(wl, trim(lu[k]), lu[k]);
                lemma_occurs_trans(wl, lu[k], u);
                let i = choose|i: int| 0 <= i <= u.len() && #[trigger] is_prefix(wl, u.skip(i));
                assert(i + 11 <= u.len());
                if i + 11 == u.len() {
                    assert(u.skip(i).take(11)[10] == u[u.len() - 1]);
                    assert(wl[10] == '=');
                }
                assert(c.skip(i).take(11) =~= u.skip(i).take(11));
                assert(is_prefix(wl, c.skip(i)));
            }
        }
        let out = lines(u + line);
        assert(out == lu + seq![line]);
        lemma_whitelist_first(out, lu.len() as int);
    }
}

/// The first line at or before `j0` whose trimmed text starts with
/// `white-list=`.
proof fn choose_first(ls: Seq<Seq<char>>, j0: int) -> (j: int)
    requires
        0 <= j0 < ls.len(),
        is_prefix(wl_prefix(), trim(ls[j0])),
    ensures
        0 <= j <= j0,
        is_prefix(wl_prefix(), trim(ls[j])),
        forall|k: int| 0 <= k < j ==> !is_prefix(wl_prefix(), trim(#[trigger] ls[k])),
    decreases j0,
{
    if exists|k: int| 0 <= k < j0 && is_prefix(wl_prefix(), trim(#[trigger] ls[k])) {
        let k = choose|k: int| 0 <= k < j0 && is_prefix(wl_prefix(), trim(#[trigger] ls[k]));
        choose_first(ls, k)
    } else {
        j0
    }
}

} // verus!

verus! {

/// Whether the setup must record the default backup retention: no value
/// is recorded under `backup_keep`.
pub fn needs_backup_keep(dir: &ServerDir) -> (r: bool)
    ensures
        r == (meta_value(meta_pairs(dir.meta@), "backup_keep"@).len() == 0),
{
    chars_of(read_meta(dir, "backup_keep").as_str()).len() == 0
}

} // verus!
