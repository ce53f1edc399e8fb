//! The server's whitelist file (`fastmc/whitelist`, one `name uuid` line
//! per player) and the `whitelist.json` built from it.

use vstd::prelude::*;
use crate::dir::opt_view;
use crate::text::{
    chars_of, extend_chars, extend_vec, is_ws, join_lines, join_lines_of, lines, lines_of, string_of,
    tokens, tokens_of, trim, trim_bounds, trim_start, views, ws_index,
};

verus! {

/// The text of a file, empty where it is absent.
pub open spec fn or_empty(c: Option<Seq<char>>) -> Seq<char> {
    match c {
        Some(s) => s,
        None => seq![],
    }
}

/// The lines that hold something besides whitespace.
pub open spec fn nonblank(ls: Seq<Seq<char>>) -> Seq<Seq<char>>
    decreases ls.len(),
{
    if ls.len() == 0 {
        seq![]
    } else if trim(ls[0]).len() == 0 {
        nonblank(ls.drop_first())
    } else {
        seq![ls[0]] + nonblank(ls.drop_first())
    }
}

/// The entries of the whitelist file: its non-blank lines.
pub open spec fn entries(content: Option<Seq<char>>) -> Seq<Seq<char>> {
    nonblank(lines(or_empty(content)))
}

/// The first word of `s`, or nothing where it has none
/// (`s.split_whitespace().next().unwrap_or("")`).
pub open spec fn first_word(s: Seq<char>) -> Seq<char> {
    let t = trim_start(s);
    t.take(ws_index(t) as int)
}

/// The first of the words is the first word, and there is one exactly
/// where the text holds something besides whitespace.
pub proof fn lemma_tokens_first(s: Seq<char>)
    ensures
        tokens(s).len() > 0 <==> trim_start(s).len() > 0,
        tokens(s).len() > 0 ==> tokens(s)[0] == first_word(s),
        trim_start(s).len() == 0 ==> first_word(s) == Seq::<char>::empty(),
{
    let t = trim_start(s);
    if t.len() > 0 {
        let k = ws_index(t);
        crate::text::lemma_trim_start_suffix(s);
        crate::text::lemma_ws_index_bounds(t);
        assert(tokens(s) == seq![t.take(k as int)] + tokens(t.skip(k as int)));
        assert((seq![t.take(k as int)] + tokens(t.skip(k as int)))[0] == t.take(k as int));
    } else {
        assert(t.take(0) =~= Seq::<char>::empty());
    }
}

/// The whitelist entries of the file's content.
pub fn whitelist_entries(content: &Option<String>) -> (r: Vec<String>)
    ensures
        r@.map_values(|s: String| s@) == entries(opt_view(*content)),
{
    let cs = match content {
        Some(c) => chars_of(c.as_str()),
        None => Vec::new(),
    };
    assert(cs@ == or_empty(opt_view(*content)));
    let ls = lines_of(&cs);
    let mut r: Vec<String> = Vec::new();
    let mut i: usize = 0;
    assert(views(ls@).skip(0) =~= views(ls@));
    while i < ls.len()
        invariant
            i <= ls.len(),
            r@.map_values(|s: String| s@) + nonblank(views(ls@).skip(i as int)) == nonblank(
                views(ls@),
            ),
        decreases ls.len() - i,
    {
        let ghost rest = views(ls@).skip(i as int);
        assert(rest[0] == ls@[i as int]@);
        assert(rest.drop_first() =~= views(ls@).skip(i + 1));
        let (a, b) = trim_bounds(&ls[i]);
        if a < b {
            let ghost r0 = r@.map_values(|s: String| s@);
            r.push(string_of(&ls[i]));
            assert(r@.map_values(|s: String| s@) =~= r0.push(ls@[i as int]@));
            assert(r0.push(ls@[i as int]@) + nonblank(views(ls@).skip(i + 1)) =~= r0 + (seq![
                ls@[i as int]@,
            ] + nonblank(views(ls@).skip(i + 1))));
        }
        i = i + 1;
    }
    assert(views(ls@).skip(ls.len() as int) =~= Seq::<Seq<char>>::empty());
    assert(r@.map_values(|s: String| s@) + Seq::<Seq<char>>::empty() =~= r@.map_values(
        |s: String| s@,
    ));
    r
}

/// The first word of `v`.
fn first_word_of(v: &Vec<char>) -> (r: Vec<char>)
    ensures
        r@ == first_word(v@),
{
    let ts = tokens_of(v);
    proof {
        lemma_tokens_first(v@);
        assert(views(ts@).len() == ts@.len());
    }
    if ts.len() > 0 {
        assert(views(ts@)[0] == ts@[0]@);
        ts[0].clone()
    } else {
        let e: Vec<char> = Vec::new();
        assert(e@ =~= first_word(v@));
        e
    }
}

/// The player an entry names: its first word.
pub fn player_name(entry: &str) -> (r: String)
    ensures
        r@ == first_word(entry@),
{
    string_of(&first_word_of(&chars_of(entry)))
}

/// The UUID recorded for a player whose UUID could not be looked up.
pub fn unknown_uuid() -> (r: String)
    ensures
        r@ == "00000000-0000-0000-0000-000000000000"@,
{
    string_of(&chars_of("00000000-0000-0000-0000-000000000000"))
}

/// The whitelist line for a player: `name uuid`.
pub open spec fn entry_line(name: Seq<char>, uuid: Seq<char>) -> Seq<char> {
    name + seq![' '] + uuid
}

/// The whitelist file after a player is added: its old content (empty
/// where absent) with `name uuid` and a newline appended.
pub open spec fn with_player(content: Option<Seq<char>>, name: Seq<char>, uuid: Seq<char>) -> Seq<
    char,
> {
    or_empty(content) + entry_line(name, uuid) + seq!['\n']
}

/// The content of the whitelist file after adding `name` with `uuid`.
pub fn whitelist_with_player(content: &Option<String>, name: &str, uuid: &str) -> (r: String)
    ensures
        r@ == with_player(opt_view(*content), name@, uuid@),
{
    let mut v = match content {
        Some(c) => chars_of(c.as_str()),
        None => Vec::new(),
    };
    extend_chars(&mut v, name);
    v.push(' ');
    extend_chars(&mut v, uuid);
    v.push('\n');
    string_of(&v)
}

/// The lines whose first word is not `name`, in order (lines without a
/// word are kept).
pub open spec fn others(ls: Seq<Seq<char>>, name: Seq<char>) -> Seq<Seq<char>>
    decreases ls.len(),
{
    if ls.len() == 0 {
        seq![]
    } else if trim_start(ls[0]).len() > 0 && first_word(ls[0]) == name {
        others(ls.drop_first(), name)
    } else {
        seq![ls[0]] + others(ls.drop_first(), name)
    }
}

/// The whitelist file after the player `name` is removed: the lines of
/// its old content (empty where unreadable) whose first word is not
/// `name`, joined by newlines.
pub open spec fn without_player(content: Option<Seq<char>>, name: Seq<char>) -> Seq<char> {
    join_lines(others(lines(or_empty(content)), name))
}

/// The content of the whitelist file after removing `name`.
pub fn whitelist_without_player(content: &Option<String>, name: &str) -> (r: String)
    ensures
        r@ == without_player(opt_view(*content), name@),
{
    let cs = match content {
        Some(c) => chars_of(c.as_str()),
        None => Vec::new(),
    };
    let n = chars_of(name);
    let ls = lines_of(&cs);
    let mut kept: Vec<Vec<char>> = Vec::new();
    let mut i: usize = 0;
    assert(views(ls@).skip(0) =~= views(ls@));
    while i < ls.len()
        invariant
            i <= ls.len(),
            n@ == name@,
            views(kept@) + others(views(ls@).skip(i as int), n@) == others(views(ls@), n@),
        decreases ls.len() - i,
    {
        let ghost rest = views(ls@).skip(i as int);
        assert(rest[0] == ls@[i as int]@);
        assert(rest.drop_first() =~= views(ls@).skip(i + 1));
        let ts = tokens_of(&ls[i]);
        proof {
            lemma_tokens_first(ls@[i as int]@);
            assert(views(ts@).len() == ts@.len());
        }
        let drop = if ts.len() > 0 {
            assert(views(ts@)[0] == ts@[0]@);
            crate::text::chars_eq(&ts[0], &n)
        } else {
            false
        };
        if !drop {
            let ghost k0 = views(kept@);
            kept.push(ls[i].clone());
            assert(views(kept@) =~= k0.push(ls@[i as int]@));
            assert(k0.push(ls@[i as int]@) + others(views(ls@).skip(i + 1), n@) =~= k0 + (seq![
                ls@[i as int]@,
            ] + others(views(ls@).skip(i + 1), n@)));
        }
        i = i + 1;
    }
    assert(views(ls@).skip(ls.len() as int) =~= Seq::<Seq<char>>::empty());
    assert(views(kept@) + Seq::<Seq<char>>::empty() =~= views(kept@));
    string_of(&join_lines_of(&kept))
}

/// `ls` joined with `sep` between neighbours.
pub open spec fn join_with(ls: Seq<Seq<char>>, sep: char) -> Seq<char>
    decreases ls.len(),
{
    if ls.len() == 0 {
        seq![]
    } else if ls.len() == 1 {
        ls[0]
    } else {
        join_with(ls.drop_last(), sep) + seq![sep] + ls.last()
    }
}

/// The JSON object for a whitelist line with words `ws`.
pub open spec fn json_entry(ws: Seq<Seq<char>>) -> Seq<char> {
    "{\"uuid\":\""@ + ws[1] + "\",\"name\":\""@ + ws[0] + "\"}"@
}

/// The JSON objects of the lines with at least two words, in order.
pub open spec fn json_entries(ls: Seq<Seq<char>>) -> Seq<Seq<char>>
    decreases ls.len(),
{
    if ls.len() == 0 {
        seq![]
    } else if tokens(ls[0]).len() >= 2 {
        seq![json_entry(tokens(ls[0]))] + json_entries(ls.drop_first())
    } else {
        json_entries(ls.drop_first())
    }
}

/// `whitelist.json` for the whitelist file's content: an array of the
/// objects of its lines with at least two words (`[]` where the file is
/// absent).
pub open spec fn whitelist_json(content: Option<Seq<char>>) -> Seq<char> {
    seq!['['] + join_with(json_entries(lines(or_empty(content))), ',') + seq![']']
}

/// The content of `whitelist.json` for the whitelist file's content.
pub fn whitelist_json_of(content: &Option<String>) -> (r: String)
    ensures
        r@ == whitelist_json(opt_view(*content)),
{
    let cs = match content {
        Some(c) => chars_of(c.as_str()),
        None => Vec::new(),
    };
    let ls = lines_of(&cs);
    let mut objs: Vec<Vec<char>> = Vec::new();
    let mut i: usize = 0;
    assert(views(ls@).skip(0) =~= views(ls@));
    while i < ls.len()
        invariant
            i <= ls.len(),
            views(objs@) + json_entries(views(ls@).skip(i as int)) == json_entries(views(ls@)),
        decreases ls.len() - i,
    {
        let ghost rest = views(ls@).skip(i as int);
        assert(rest[0] == ls@[i as int]@);
        assert(rest.drop_first() =~= views(ls@).skip(i + 1));
        let ts = tokens_of(&ls[i]);
        if ts.len() >= 2 {
            let mut o = chars_of("{\"uuid\":\"");
            extend_vec(&mut o, &ts[1]);
            extend_chars(&mut o, "\",\"name\":\"");
            extend_vec(&mut o, &ts[0]);
            extend_chars(&mut o, "\"}");
            assert(views(ts@)[0] == ts@[0]@);
            assert(views(ts@)[1] == ts@[1]@);
            assert(o@ == json_entry(tokens(ls@[i as int]@)));
            let ghost k0 = views(objs@);
            objs.push(o);
            assert(views(objs@) =~= k0.push(json_entry(tokens(ls@[i as int]@))));
            assert(k0.push(json_entry(tokens(ls@[i as int]@))) + json_entries(
                views(ls@).skip(i + 1),
            ) =~= k0 + (seq![json_entry(tokens(ls@[i as int]@))] + json_entries(
                views(ls@).skip(i + 1),
            )));
        }
        i = i + 1;
    }
    assert(views(ls@).skip(ls.len() as int) =~= Seq::<Seq<char>>::empty());
    assert(views(objs@) + Seq::<Seq<char>>::empty() =~= views(objs@));
    let mut out: Vec<char> = Vec::new();
    out.push('[');
    let mut k: usize = 0;
    while k < objs.len()
        invariant
            k <= objs.len(),
            out@ == seq!['['] + join_with(views(objs@).take(k as int), ','),
        decreases objs.len() - k,
    {
        let ghost o0 = out@;
        if k > 0 {
            out.push(',');
        }
        extend_vec(&mut out, &objs[k]);
        let ghost t = views(objs@).take(k + 1);
        assert(t.drop_last() =~= views(objs@).take(k as int));
        assert(t.last() == objs@[k as int]@);
        if k == 0 {
            assert(join_with(views(objs@).take(0), ',') =~= Seq::<char>::empty());
            assert(out@ =~= seq!['['] + join_with(t, ','));
        } else {
            assert(out@ =~= seq!['['] + join_with(t, ','));
        }
        k = k + 1;
    }
    assert(views(objs@).take(objs.len() as int) =~= views(objs@));
    out.push(']');
    string_of(&out)
}

} // verus!

verus! {

proof fn lemma_nonblank_concat(a: Seq<Seq<char>>, b: Seq<Seq<char>>)
    ensures
        nonblank(a + b) == nonblank(a) + nonblank(b),
    decreases a.len(),
{
    if a.len() == 0 {
        assert(a + b =~= b);
        assert(nonblank(a) + nonblank(b) =~= nonblank(b));
    } else {
        assert((a + b)[0] == a[0]);
        assert((a + b).drop_first() =~= a.drop_first() + b);
        lemma_nonblank_concat(a.drop_first(), b);
        if trim(a[0]).len() != 0 {
            assert(seq![a[0]] + (nonblank(a.drop_first()) + nonblank(b)) =~= (seq![a[0]]
                + nonblank(a.drop_first())) + nonblank(b));
        }
    }
}

/// Adding a player to a whitelist file that is empty or ends in a newline
/// appends exactly its line to the entries, and the player named first in
/// that line is the first word of `name`; where neither the name nor the
/// UUID holds a line break, the UUID does not end in `'\r'` and the line
/// holds a word.
pub proof fn law_add_player_appends_entry(
    content: Option<Seq<char>>,
    name: Seq<char>,
    uuid: Seq<char>,
)
    requires
        or_empty(content).len() == 0 || or_empty(content).last() == '\n',
        !name.contains('\n'),
        !uuid.contains('\n'),
        !(uuid.len() > 0 && uuid.last() == '\r'),
        trim_start(name).len() > 0,
    ensures
        entries(Some(with_player(content, name, uuid))) == entries(content).push(
            entry_line(name, uuid),
        ),
        first_word(entry_line(name, uuid)) == first_word(name),
{
    let u = or_empty(content);
    let line = entry_line(name, uuid);
    assert(!line.contains('\n')) by {
        if line.contains('\n') {
            let k = choose|k: int| 0 <= k < line.len() && line[k] == '\n';
            if k < name.len() {
                assert(name[k] == '\n');
            } else if k > name.len() {
                assert(uuid[k - name.len() - 1] == '\n');
            }
        }
    }
    let tail = line + seq!['\n'];
    assert(with_player(content, name, uuid) =~= u + tail);
    crate::text::lemma_lines_append(u, tail);
    crate::text::lemma_lines_terminated(seq![line]);
    assert(crate::text::terminated(seq![line]) =~= tail) by {
        assert(seq![line].drop_first() =~= Seq::<Seq<char>>::empty());
        assert(crate::text::terminated(Seq::<Seq<char>>::empty()) == Seq::<char>::empty());
    }
    assert(crate::text::none_holds(seq![line], '\n')) by {
        assert forall|i: int| 0 <= i < 1 implies !(#[trigger] seq![line][i]).contains('\n') by {}
    }
    assert(line.last() == (if uuid.len() > 0 {
        uuid.last()
    } else {
        ' '
    }));
    assert(crate::text::strip_cr(line) == line);
    assert(seq![line].map_values(|l: Seq<char>| crate::text::strip_cr(l)) =~= seq![line]);
    lemma_nonblank_concat(lines(u), seq![line]);
    lemma_first_word_prefix(name, seq![' '] + uuid);
    assert(line =~= name + (seq![' '] + uuid));
    lemma_trim_start_concat(name, seq![' '] + uuid);
    assert(trim(line).len() > 0) by {
        lemma_trim_nonempty(line);
    }
    assert(nonblank(seq![line]) =~= seq![line]) by {
        assert(seq![line].drop_first() =~= Seq::<Seq<char>>::empty());
        assert(nonblank(Seq::<Seq<char>>::empty()) == Seq::<Seq<char>>::empty());
        assert(seq![line][0] == line);
    }
    assert(content is None ==> u == Seq::<char>::empty());
    if content is None {
        assert(lines(Seq::<char>::empty()) == Seq::<Seq<char>>::empty());
    }
}

/// Text after a word does not change where the word starts.
proof fn lemma_trim_start_concat(a: Seq<char>, b: Seq<char>)
    requires
        trim_start(a).len() > 0,
    ensures
        trim_start(a + b) == trim_start(a) + b,
    decreases a.len(),
{
    assert((a + b)[0] == a[0]);
    if is_ws(a[0]) {
        assert((a + b).drop_first() =~= a.drop_first() + b);
        lemma_trim_start_concat(a.drop_first(), b);
    }
}

/// `trim` keeps something of a text whose `trim_start` does.
proof fn lemma_trim_nonempty(s: Seq<char>)
    requires
        trim_start(s).len() > 0,
    ensures
        trim(s).len() > 0,
{
    crate::text::lemma_trim_start_suffix(s);
    lemma_trim_end_keeps_head(trim_start(s));
}

proof fn lemma_trim_end_keeps_head(t: Seq<char>)
    requires
        t.len() > 0,
        !is_ws(t[0]),
    ensures
        crate::text::trim_end(t).len() > 0,
    decreases t.len(),
{
    if is_ws(t.last()) {
        assert(t.len() > 1);
        assert(t.drop_last()[0] == t[0]);
        lemma_trim_end_keeps_head(t.drop_last());
    }
}

/// The first word of `a + b` is that of `a` where `a` holds a word and `b`
/// starts with whitespace.
proof fn lemma_first_word_prefix(a: Seq<char>, b: Seq<char>)
    requires
        trim_start(a).len() > 0,
        b.len() > 0 && is_ws(b[0]),
    ensures
        first_word(a + b) == first_word(a),
    decreases a.len(),
{
    if is_ws(a[0]) {
        assert((a + b)[0] == a[0]);
        assert((a + b).drop_first() =~= a.drop_first() + b);
        lemma_first_word_prefix(a.drop_first(), b);
    } else {
        assert((a + b)[0] == a[0]);
        assert(trim_start(a + b) == a + b);
        assert(trim_start(a) == a);
        crate::text::lemma_ws_index_bounds(a);
        let k = ws_index(a) as int;
        assert forall|j: int| 0 <= j < k implies !is_ws((a + b)[j]) by {
            assert((a + b)[j] == a[j]);
        }
        if k < a.len() {
            assert((a + b)[k] == a[k]);
        } else {
            assert((a + b)[k] == b[0]);
        }
        crate::text::lemma_ws_index(a + b, k);
        assert((a + b).take(k) =~= a.take(k));
    }
}

/// Dropping a final whitespace character does not change the first word of
/// a text that holds one.
proof fn lemma_first_word_drop_ws(k: Seq<char>)
    requires
        trim_start(k).len() > 0,
        k.len() > 0,
        is_ws(k.last()),
    ensures
        first_word(k.drop_last()) == first_word(k),
        trim_start(k.drop_last()).len() > 0,
    decreases k.len(),
{
    if is_ws(k[0]) {
        assert(k.drop_first().len() > 0) by {
            crate::text::lemma_trim_start_suffix(k);
            if k.len() == 1 {
                assert(trim_start(k) == trim_start(k.drop_first()));
                assert(trim_start(k.drop_first()) == k.drop_first());
            }
        }
        assert(k.drop_first().last() == k.last());
        lemma_first_word_drop_ws(k.drop_first());
        assert(k.drop_last().len() > 0);
        assert(k.drop_last()[0] == k[0]);
        assert(k.drop_last().drop_first() =~= k.drop_first().drop_last());
    } else {
        assert(k.len() > 1);
        assert(k.drop_last()[0] == k[0]);
        lemma_first_word_prefix(k.drop_last(), seq![k.last()]);
        assert(k.drop_last() + seq![k.last()] =~= k);
    }
}

proof fn lemma_others_props(ls: Seq<Seq<char>>, name: Seq<char>)
    ensures
        forall|i: int|
            0 <= i < others(ls, name).len() ==> trim_start(#[trigger] others(ls, name)[i]).len() == 0
                || first_word(others(ls, name)[i]) != name,
        crate::text::none_holds(ls, '\n') ==> crate::text::none_holds(others(ls, name), '\n'),
    decreases ls.len(),
{
    if ls.len() > 0 {
        lemma_others_props(ls.drop_first(), name);
        let o = others(ls, name);
        let r = others(ls.drop_first(), name);
        if crate::text::none_holds(ls, '\n') {
            assert forall|i: int| 0 <= i < ls.drop_first().len() implies !(
            #[trigger] ls.drop_first()[i]).contains('\n') by {
                assert(ls.drop_first()[i] == ls[i + 1]);
            }
        }
        if !(trim_start(ls[0]).len() > 0 && first_word(ls[0]) == name) {
            assert forall|i: int| 0 <= i < o.len() implies trim_start(#[trigger] o[i]).len() == 0
                || first_word(o[i]) != name by {
                if i > 0 {
                    assert(o[i] == r[i - 1]);
                }
            }
            if crate::text::none_holds(ls, '\n') {
                assert forall|i: int| 0 <= i < o.len() implies !(#[trigger] o[i]).contains('\n') by {
                    if i > 0 {
                        assert(o[i] == r[i - 1]);
                    } else {
                        assert(o[0] == ls[0]);
                    }
                }
            }
        }
    }
}

proof fn lemma_nonblank_from(ls: Seq<Seq<char>>, e: Seq<char>)
    requires
        nonblank(ls).contains(e),
    ensures
        ls.contains(e),
        trim(e).len() > 0,
    decreases ls.len(),
{
    if ls.len() > 0 {
        if trim(ls[0]).len() != 0 && e == ls[0] {
        } else {
            if trim(ls[0]).len() != 0 {
                let j = choose|j: int| 0 <= j < nonblank(ls).len() && nonblank(ls)[j] == e;
                if j > 0 {
                    assert(nonblank(ls.drop_first())[j - 1] == e);
                }
            }
            lemma_nonblank_from(ls.drop_first(), e);
            let j = choose|j: int| 0 <= j < ls.drop_first().len() && ls.drop_first()[j] == e;
            assert(ls[j + 1] == e);
        }
    }
}

/// After the player `name` is removed, no entry of the whitelist file
/// names it.
pub proof fn law_removed_player_absent(content: Option<Seq<char>>, name: Seq<char>, e: Seq<char>)
    requires
        entries(Some(without_player(content, name))).contains(e),
    ensures
        first_word(e) != name,
{
    let ls = lines(or_empty(content));
    let k = others(ls, name);
    crate::text::lemma_lines_no_newline(or_empty(content));
    lemma_others_props(ls, name);
    crate::text::lemma_lines_join(k);
    let m = lines(join_lines(k));
    lemma_nonblank_from(m, e);
    let j = choose|j: int| 0 <= j < m.len() && m[j] == e;
    let kj = k[j];
    assert(m[j] == (if j + 1 < k.len() {
        crate::text::strip_cr(kj)
    } else {
        kj
    }));
    crate::text::lemma_trim_start_suffix(e);
    if trim_start(e).len() == 0 {
        assert(trim(e) == crate::text::trim_end(trim_start(e)));
        assert(crate::text::trim_end(Seq::<char>::empty()) == Seq::<char>::empty());
    }
    if j + 1 < k.len() && kj.len() > 0 && kj.last() == '\r' {
        assert(is_ws('\r'));
        assert(e == kj.drop_last());
        assert(trim_start(kj).len() > 0) by {
            if trim_start(kj).len() == 0 {
                lemma_trim_start_empty_prefix(kj);
            }
        }
        lemma_first_word_drop_ws(kj);
    } else {
        assert(e == kj);
    }
}

/// A text with nothing besides whitespace keeps nothing once its last
/// character is dropped either.
proof fn lemma_trim_start_empty_prefix(k: Seq<char>)
    requires
        trim_start(k).len() == 0,
        k.len() > 0,
    ensures
        trim_start(k.drop_last()).len() == 0,
    decreases k.len(),
{
    if k.len() > 1 {
        assert(is_ws(k[0]));
        assert(k.drop_last()[0] == k[0]);
        assert(k.drop_last().drop_first() =~= k.drop_first().drop_last());
        lemma_trim_start_empty_prefix(k.drop_first());
    } else {
        assert(k.drop_last() =~= Seq::<char>::empty());
    }
}

/// The lines that hold at least two words, in order.
pub open spec fn two_word_lines(ls: Seq<Seq<char>>) -> Seq<Seq<char>>
    decreases ls.len(),
{
    if ls.len() == 0 {
        seq![]
    } else {
        (if tokens(ls[0]).len() >= 2 {
            seq![ls[0]]
        } else {
            seq![]
        }) + two_word_lines(ls.drop_first())
    }
}

/// `whitelist.json` holds one object for each whitelist line with at least
/// two words, in the order of the lines and whatever its UUID text (the
/// all-zero UUID of a failed lookup included):
/// `{"uuid":"<second word>","name":"<first word>"}`; lines with fewer words
/// give none.
pub proof fn law_json_one_object_per_entry(ls: Seq<Seq<char>>)
    ensures
        json_entries(ls).len() == two_word_lines(ls).len(),
        forall|k: int|
            0 <= k < json_entries(ls).len() ==> #[trigger] json_entries(ls)[k] == "{\"uuid\":\""@
                + tokens(two_word_lines(ls)[k])[1] + "\",\"name\":\""@ + tokens(
                two_word_lines(ls)[k],
            )[0] + "\"}"@,
    decreases ls.len(),
{
    if ls.len() > 0 {
        let rest = ls.drop_first();
        law_json_one_object_per_entry(rest);
        if tokens(ls[0]).len() >= 2 {
            let t = two_word_lines(ls);
            assert(t == seq![ls[0]] + two_word_lines(rest));
            assert forall|k: int| 0 <= k < json_entries(ls).len() implies #[trigger] json_entries(
                ls,
            )[k] == "{\"uuid\":\""@ + tokens(two_word_lines(ls)[k])[1] + "\",\"name\":\""@
                + tokens(two_word_lines(ls)[k])[0] + "\"}"@ by {
                if k > 0 {
                    assert(json_entries(ls)[k] == json_entries(rest)[k - 1]);
                    assert(t[k] == two_word_lines(rest)[k - 1]);
                } else {
                    assert(t[0] == ls[0]);
                }
            }
        } else {
            assert(two_word_lines(ls) =~= two_word_lines(rest));
        }
    }
}

} // verus!
