//! Character-level helpers: whitespace, trimming and conversions between
//! `str`, `String` and `Vec<char>`.

use vstd::prelude::*;
use vstd::string::*;
use crate::external::push_char;

verus! {

/// The Unicode `White_Space` property, which both `char::is_whitespace`
/// and the `\s` class of regular expressions use.
pub open spec fn is_ws(c: char) -> bool {
    let u = c as u32;
    ||| 0x09 <= u <= 0x0D
    ||| u == 0x20
    ||| u == 0x85
    ||| u == 0xA0
    ||| u == 0x1680
    ||| 0x2000 <= u <= 0x200A
    ||| u == 0x2028
    ||| u == 0x2029
    ||| u == 0x202F
    ||| u == 0x205F
    ||| u == 0x3000
}

/// Whether `c` is whitespace in the sense of `char::is_whitespace`.
pub fn is_whitespace(c: char) -> (r: bool)
    ensures
        r == is_ws(c),
{
    let u = c as u32;
    (0x09 <= u && u <= 0x0D) || u == 0x20 || u == 0x85 || u == 0xA0 || u == 0x1680 || (0x2000
        <= u && u <= 0x200A) || u == 0x2028 || u == 0x2029 || u == 0x202F || u == 0x205F || u
        == 0x3000
}

/// `s` without its leading whitespace.
pub open spec fn trim_start(s: Seq<char>) -> Seq<char>
    decreases s.len(),
{
    if s.len() > 0 && is_ws(s[0]) {
        trim_start(s.drop_first())
    } else {
        s
    }
}

/// `s` without its trailing whitespace.
pub open spec fn trim_end(s: Seq<char>) -> Seq<char>
    decreases s.len(),
{
    if s.len() > 0 && is_ws(s.last()) {
        trim_end(s.drop_last())
    } else {
        s
    }
}

/// `s` without leading and trailing whitespace, as `str::trim` gives it.
pub open spec fn trim(s: Seq<char>) -> Seq<char> {
    trim_end(trim_start(s))
}

/// The characters of `s`, in order.
pub fn chars_of(s: &str) -> (v: Vec<char>)
    ensures
        v@ == s@,
{
    let n = s.unicode_len();
    let mut v: Vec<char> = Vec::new();
    for i in 0..n
        invariant
            n == s@.len(),
            v@ == s@.take(i as int),
    {
        v.push(s.get_char(i));
        assert(s@.take(i + 1) =~= s@.take(i as int).push(s@[i as int]));
    }
    assert(s@.take(n as int) =~= s@);
    v
}

/// A string holding the characters `v[from..to]`.
pub fn string_of_range(v: &Vec<char>, from: usize, to: usize) -> (s: String)
    requires
        from <= to <= v.len(),
    ensures
        s@ == v@.subrange(from as int, to as int),
{
    let mut s = String::new();
    let mut i = from;
    while i < to
        invariant
            from <= i <= to <= v.len(),
            s@ == v@.subrange(from as int, i as int),
        decreases to - i,
    {
        push_char(&mut s, v[i]);
        assert(v@.subrange(from as int, i + 1) =~= v@.subrange(from as int, i as int).push(
            v@[i as int],
        ));
        i = i + 1;
    }
    s
}

/// A string holding the characters of `v`.
pub fn string_of(v: &Vec<char>) -> (s: String)
    ensures
        s@ == v@,
{
    let s = string_of_range(v, 0, v.len());
    assert(v@.subrange(0, v@.len() as int) =~= v@);
    s
}

/// Appends the characters of `t` to `v`.
pub fn extend_chars(v: &mut Vec<char>, t: &str)
    ensures
        final(v)@ == old(v)@ + t@,
{
    let cs = chars_of(t);
    let n = cs.len();
    let ghost v0 = v@;
    for i in 0..n
        invariant
            n == cs@.len(),
            cs@ == t@,
            v@ == v0 + t@.take(i as int),
    {
        v.push(cs[i]);
        assert(t@.take(i + 1) =~= t@.take(i as int).push(t@[i as int]));
    }
    assert(t@.take(n as int) =~= t@);
}

proof fn lemma_trim_start_skip(s: Seq<char>, i: int)
    requires
        0 <= i < s.len(),
        is_ws(s[i]),
    ensures
        trim_start(s.skip(i)) == trim_start(s.skip(i + 1)),
{
    assert(s.skip(i).drop_first() =~= s.skip(i + 1));
}

proof fn lemma_trim_end_take(s: Seq<char>, j: int)
    requires
        0 < j <= s.len(),
        is_ws(s[j - 1]),
    ensures
        trim_end(s.take(j)) == trim_end(s.take(j - 1)),
{
    assert(s.take(j).drop_last() =~= s.take(j - 1));
}

/// The index range `[start, end)` that `trim` keeps of `s`.
pub fn trim_bounds(s: &Vec<char>) -> (r: (usize, usize))
    ensures
        r.0 <= r.1 <= s.len(),
        trim(s@) == s@.subrange(r.0 as int, r.1 as int),
{
    let n = s.len();
    let mut i: usize = 0;
    assert(s@.skip(0) =~= s@);
    while i < n && is_whitespace(s[i])
        invariant
            i <= n == s@.len(),
            trim_start(s@) == trim_start(s@.skip(i as int)),
        decreases n - i,
    {
        proof {
            lemma_trim_start_skip(s@, i as int);
        }
        i = i + 1;
    }
    let ghost t = s@.skip(i as int);
    assert(trim_start(t) == t);
    let mut j: usize = n;
    assert(t.take(n - i) =~= t);
    while j > i && is_whitespace(s[j - 1])
        invariant
            i <= j <= n == s@.len(),
            trim_end(t) == trim_end(t.take(j - i)),
            t == s@.skip(i as int),
        decreases j,
    {
        proof {
            lemma_trim_end_take(t, (j - i) as int);
        }
        j = j - 1;
    }
    assert(t.take(j - i) =~= s@.subrange(i as int, j as int));
    assert(t.take(n - i) =~= t);
    (i, j)
}

/// `s` with leading and trailing whitespace removed (`str::trim`).
pub fn trim_str(s: &str) -> (r: String)
    ensures
        r@ == trim(s@),
{
    let v = chars_of(s);
    let (a, b) = trim_bounds(&v);
    string_of_range(&v, a, b)
}

} // verus!

verus! {

/// `p` is a prefix of `s`.
pub open spec fn is_prefix(p: Seq<char>, s: Seq<char>) -> bool {
    p.len() <= s.len() && s.take(p.len() as int) == p
}

/// Whether `p` is a prefix of `s[from..]`.
pub fn has_prefix_at(s: &Vec<char>, from: usize, p: &Vec<char>) -> (r: bool)
    requires
        from <= s.len(),
    ensures
        r == is_prefix(p@, s@.skip(from as int)),
{
    if p.len() > s.len() - from {
        return false;
    }
    let mut k: usize = 0;
    while k < p.len()
        invariant
            from + p.len() <= s.len(),
            k <= p.len(),
            forall|m: int| 0 <= m < k ==> s@[from + m] == p@[m],
        decreases p.len() - k,
    {
        if s[from + k] != p[k] {
            assert(s@.skip(from as int).take(p.len() as int)[k as int] != p@[k as int]);
            return false;
        }
        k = k + 1;
    }
    assert(s@.skip(from as int).take(p.len() as int) =~= p@);
    true
}

/// Whether `p` is a prefix of `s`.
pub fn has_prefix(s: &Vec<char>, p: &Vec<char>) -> (r: bool)
    ensures
        r == is_prefix(p@, s@),
{
    assert(s@.skip(0) =~= s@);
    has_prefix_at(s, 0, p)
}

/// Index of the first `c` in `s`, or `s.len()` where `s` holds none.
pub open spec fn index_of(s: Seq<char>, c: char) -> nat
    decreases s.len(),
{
    if s.len() == 0 {
        0
    } else if s[0] == c {
        0
    } else {
        1 + index_of(s.drop_first(), c)
    }
}

/// `index_of` is the first position holding `c`, or the length.
pub proof fn lemma_index_of(s: Seq<char>, c: char, p: int)
    requires
        0 <= p <= s.len(),
        forall|k: int| 0 <= k < p ==> s[k] != c,
        p == s.len() || s[p] == c,
    ensures
        index_of(s, c) == p,
    decreases p,
{
    if p > 0 {
        lemma_index_of(s.drop_first(), c, p - 1);
    }
}

/// `index_of` lies within the sequence, and nothing before it is `c`.
pub proof fn lemma_index_of_bounds(s: Seq<char>, c: char)
    ensures
        index_of(s, c) <= s.len(),
        forall|k: int| 0 <= k < index_of(s, c) ==> s[k] != c,
        index_of(s, c) < s.len() ==> s[index_of(s, c) as int] == c,
    decreases s.len(),
{
    if s.len() > 0 && s[0] != c {
        lemma_index_of_bounds(s.drop_first(), c);
        assert forall|k: int| 0 <= k < index_of(s, c) implies s[k] != c by {
            if k > 0 {
                assert(s[k] == s.drop_first()[k - 1]);
            }
        }
    }
}

/// Position of the first `c` in `s[from..]`, counted from the start of `s`,
/// or `s.len()`.
pub fn find_char_from(s: &Vec<char>, from: usize, c: char) -> (r: usize)
    requires
        from <= s.len(),
    ensures
        from <= r <= s.len(),
        r - from == index_of(s@.skip(from as int), c),
{
    let mut i = from;
    while i < s.len() && s[i] != c
        invariant
            from <= i <= s.len(),
            forall|k: int| from <= k < i ==> s@[k] != c,
        decreases s.len() - i,
    {
        i = i + 1;
    }
    proof {
        lemma_index_of(s@.skip(from as int), c, (i - from) as int);
    }
    i
}

/// A line as `str::lines` yields it: one trailing `'\r'` is dropped.
pub open spec fn strip_cr(l: Seq<char>) -> Seq<char> {
    if l.len() > 0 && l.last() == '\r' {
        l.drop_last()
    } else {
        l
    }
}

/// The lines of `s`, as `str::lines` splits them: at each `'\n'`, with a
/// `'\r'` before it dropped, and no empty line after a final `'\n'`; a
/// last line without `'\n'` is kept whole, a final `'\r'` included.
pub open spec fn lines(s: Seq<char>) -> Seq<Seq<char>>
    decreases s.len(),
{
    if s.len() == 0 {
        seq![]
    } else {
        let i = index_of(s, '\n');
        if i < s.len() {
            seq![strip_cr(s.take(i as int))] + lines(s.skip(i + 1 as int))
        } else {
            seq![s]
        }
    }
}

/// The views of a sequence of character vectors.
pub open spec fn views(v: Seq<Vec<char>>) -> Seq<Seq<char>> {
    v.map_values(|l: Vec<char>| l@)
}

/// The lines of `s` (`str::lines`).
pub fn lines_of(s: &Vec<char>) -> (r: Vec<Vec<char>>)
    ensures
        views(r@) == lines(s@),
{
    let mut r: Vec<Vec<char>> = Vec::new();
    let mut pos: usize = 0;
    assert(s@.skip(0) =~= s@);
    while pos < s.len()
        invariant
            pos <= s.len(),
            views(r@) + lines(s@.skip(pos as int)) == lines(s@),
        decreases s.len() - pos,
    {
        let ghost rest = s@.skip(pos as int);
        let i = find_char_from(s, pos, '\n');
        let mut end = i;
        if i < s.len() && end > pos && s[end - 1] == '\r' {
            end = end - 1;
        }
        let mut line: Vec<char> = Vec::new();
        let mut k = pos;
        while k < end
            invariant
                pos <= k <= end <= s.len(),
                line@ == s@.subrange(pos as int, k as int),
            decreases end - k,
        {
            line.push(s[k]);
            assert(s@.subrange(pos as int, k + 1) =~= s@.subrange(pos as int, k as int).push(
                s@[k as int],
            ));
            k = k + 1;
        }
        assert(i < s.len() ==> line@ == strip_cr(rest.take(i - pos))) by {
            assert(rest.take(i - pos) =~= s@.subrange(pos as int, i as int));
            if i < s.len() && i > pos && s@[i - 1] == '\r' {
                assert(s@.subrange(pos as int, i as int).drop_last() =~= s@.subrange(
                    pos as int,
                    i - 1,
                ));
            }
        }
        let ghost old_r = views(r@);
        r.push(line);
        assert(views(r@) =~= old_r.push(line@));
        if i < s.len() {
            assert(rest.skip(i - pos + 1) =~= s@.skip(i + 1));
            assert(lines(rest) == seq![line@] + lines(s@.skip(i + 1)));
            assert(old_r.push(line@) + lines(s@.skip(i + 1)) =~= old_r + (seq![line@] + lines(
                s@.skip(i + 1),
            )));
            pos = i + 1;
        } else {
            assert(rest.take(i - pos) =~= rest);
            assert(line@ =~= rest);
            assert(lines(rest) == seq![line@]);
            assert(s@.skip(s@.len() as int) =~= Seq::<char>::empty());
            assert(old_r.push(line@) + lines(s@.skip(s@.len() as int)) =~= old_r + seq![line@]);
            pos = s.len();
        }
    }
    assert(s@.skip(pos as int) =~= Seq::<char>::empty());
    assert(views(r@) + lines(Seq::<char>::empty()) =~= views(r@));
    r
}

/// The lines of `ls`, each followed by `'\n'`.
pub open spec fn terminated(ls: Seq<Seq<char>>) -> Seq<char>
    decreases ls.len(),
{
    if ls.len() == 0 {
        seq![]
    } else {
        ls[0] + seq!['\n'] + terminated(ls.drop_first())
    }
}

/// `ls` joined with `"\n"` between neighbours (`[&str]::join("\n")`).
pub open spec fn join_lines(ls: Seq<Seq<char>>) -> Seq<char>
    decreases ls.len(),
{
    if ls.len() == 0 {
        seq![]
    } else if ls.len() == 1 {
        ls[0]
    } else {
        join_lines(ls.drop_last()) + seq!['\n'] + ls.last()
    }
}

/// No line of `ls` holds `c`.
pub open spec fn none_holds(ls: Seq<Seq<char>>, c: char) -> bool {
    forall|i: int| 0 <= i < ls.len() ==> !(#[trigger] ls[i]).contains(c)
}

/// Splitting lines that were each written with a terminating `'\n'` gives
/// them back, less a final `'\r'`.
pub proof fn lemma_lines_terminated(ls: Seq<Seq<char>>)
    requires
        none_holds(ls, '\n'),
    ensures
        lines(terminated(ls)) == ls.map_values(|l: Seq<char>| strip_cr(l)),
    decreases ls.len(),
{
    if ls.len() > 0 {
        let s = terminated(ls);
        let l = ls[0];
        let rest = terminated(ls.drop_first());
        assert(none_holds(ls.drop_first(), '\n')) by {
            assert forall|i: int| 0 <= i < ls.drop_first().len() implies !(
            #[trigger] ls.drop_first()[i]).contains('\n') by {
                assert(ls.drop_first()[i] == ls[i + 1]);
            }
        }
        lemma_lines_terminated(ls.drop_first());
        assert(!l.contains('\n')) by {
            assert(!ls[0].contains('\n'));
        }
        assert forall|k: int| 0 <= k < l.len() implies s[k] != '\n' by {
            assert(s[k] == l[k]);
            if l[k] == '\n' {
                assert(l.contains('\n'));
            }
        }
        assert(s[l.len() as int] == '\n');
        lemma_index_of(s, '\n', l.len() as int);
        assert(s.take(l.len() as int) =~= l);
        assert(s.skip(l.len() + 1 as int) =~= rest);
        assert(ls.map_values(|l: Seq<char>| strip_cr(l)) =~= seq![strip_cr(l)] + ls.drop_first(
        ).map_values(|l: Seq<char>| strip_cr(l)));
    }
}

/// The characters of `ls`, each followed by `'\n'`.
pub fn terminated_of(ls: &Vec<Vec<char>>) -> (r: Vec<char>)
    ensures
        r@ == terminated(views(ls@)),
{
    let mut r: Vec<char> = Vec::new();
    let mut i = ls.len();
    let mut tail: Vec<char> = Vec::new();
    while i > 0
        invariant
            i <= ls.len(),
            tail@ == terminated(views(ls@).skip(i as int)),
        decreases i,
    {
        i = i - 1;
        let mut next: Vec<char> = ls[i].clone();
        next.push('\n');
        let ghost t0 = tail@;
        let mut k: usize = 0;
        let n = tail.len();
        while k < n
            invariant
                n == tail.len(),
                k <= n,
                next@ == ls@[i as int]@ + seq!['\n'] + tail@.take(k as int),
            decreases n - k,
        {
            next.push(tail[k]);
            assert(tail@.take(k + 1) =~= tail@.take(k as int).push(tail@[k as int]));
            k = k + 1;
        }
        assert(tail@.take(n as int) =~= tail@);
        assert(views(ls@).skip(i as int).drop_first() =~= views(ls@).skip(i + 1));
        assert(views(ls@).skip(i as int)[0] == ls@[i as int]@);
        tail = next;
    }
    assert(views(ls@).skip(0) =~= views(ls@));
    r = tail;
    r
}

/// The characters of `ls` joined with `'\n'` (`[String]::join("\n")`).
pub fn join_lines_of(ls: &Vec<Vec<char>>) -> (r: Vec<char>)
    ensures
        r@ == join_lines(views(ls@)),
{
    let mut r: Vec<char> = Vec::new();
    let n = ls.len();
    let mut i: usize = 0;
    while i < n
        invariant
            n == ls.len(),
            i <= n,
            r@ == join_lines(views(ls@).take(i as int)),
        decreases n - i,
    {
        let ghost r0 = r@;
        if i > 0 {
            r.push('\n');
        }
        let line = &ls[i];
        let mut k: usize = 0;
        while k < line.len()
            invariant
                i < n == ls.len(),
                line == ls@[i as int],
                k <= line.len(),
                r@ == (if i > 0 {
                    r0 + seq!['\n']
                } else {
                    r0
                }) + line@.take(k as int),
            decreases line.len() - k,
        {
            r.push(line[k]);
            assert(line@.take(k + 1) =~= line@.take(k as int).push(line@[k as int]));
            k = k + 1;
        }
        assert(line@.take(line.len() as int) =~= line@);
        let ghost t = views(ls@).take(i + 1);
        assert(t.drop_last() =~= views(ls@).take(i as int));
        assert(t.last() == ls@[i as int]@);
        if i == 0 {
            assert(r0 =~= Seq::<char>::empty());
            assert(r@ =~= line@);
        }
        i = i + 1;
    }
    assert(views(ls@).take(n as int) =~= views(ls@));
    r
}

} // verus!

verus! {

/// Whether two character vectors hold the same characters.
pub fn chars_eq(a: &Vec<char>, b: &Vec<char>) -> (r: bool)
    ensures
        r == (a@ == b@),
{
    if a.len() != b.len() {
        return false;
    }
    let mut i: usize = 0;
    while i < a.len()
        invariant
            a.len() == b.len(),
            i <= a.len(),
            forall|k: int| 0 <= k < i ==> a@[k] == b@[k],
        decreases a.len() - i,
    {
        if a[i] != b[i] {
            return false;
        }
        i = i + 1;
    }
    assert(a@ =~= b@);
    true
}

/// Whether two strings are equal.
pub fn str_eq(a: &str, b: &str) -> (r: bool)
    ensures
        r == (a@ == b@),
{
    chars_eq(&chars_of(a), &chars_of(b))
}

/// Whether `s` holds `c`.
pub fn holds_char(s: &Vec<char>, c: char) -> (r: bool)
    ensures
        r == s@.contains(c),
{
    let i = find_char_from(s, 0, c);
    proof {
        assert(s@.skip(0) =~= s@);
        lemma_index_of_bounds(s@, c);
    }
    i < s.len()
}

} // verus!

verus! {

/// `strip_cr` keeps a prefix of the line.
pub proof fn lemma_strip_cr_prefix(l: Seq<char>, p: Seq<char>)
    ensures
        strip_cr(l).len() <= l.len(),
        strip_cr(l) == l.take(strip_cr(l).len() as int),
        is_prefix(p, strip_cr(l)) ==> is_prefix(p, l),
{
    if l.len() > 0 && l.last() == '\r' {
        assert(l.drop_last() =~= l.take(l.len() - 1));
        if is_prefix(p, strip_cr(l)) {
            assert(l.take(p.len() as int) =~= strip_cr(l).take(p.len() as int));
        }
    } else {
        assert(l.take(l.len() as int) =~= l);
    }
}

/// No line that `lines` yields holds a newline.
pub proof fn lemma_lines_no_newline(s: Seq<char>)
    ensures
        none_holds(lines(s), '\n'),
    decreases s.len(),
{
    if s.len() > 0 {
        let i = index_of(s, '\n');
        lemma_index_of_bounds(s, '\n');
        let first = if i < s.len() {
            strip_cr(s.take(i as int))
        } else {
            strip_cr(s)
        };
        let whole = if i < s.len() {
            s.take(i as int)
        } else {
            s
        };
        lemma_strip_cr_prefix(whole, seq![]);
        assert(!first.contains('\n')) by {
            if first.contains('\n') {
                let k = choose|k: int| 0 <= k < first.len() && first[k] == '\n';
                assert(first[k] == whole[k]);
                assert(whole[k] == s[k]);
            }
        }
        if i < s.len() {
            lemma_lines_no_newline(s.skip(i + 1 as int));
            let rest = lines(s.skip(i + 1 as int));
            assert forall|j: int| 0 <= j < lines(s).len() implies !(#[trigger] lines(s)[j]).contains(
                '\n',
            ) by {
                if j > 0 {
                    assert(lines(s)[j] == rest[j - 1]);
                }
            }
        }
    }
}

/// A terminated list of lines appended to: the new line comes last.
pub proof fn lemma_terminated_push(ls: Seq<Seq<char>>, l: Seq<char>)
    ensures
        terminated(ls.push(l)) == terminated(ls) + l + seq!['\n'],
    decreases ls.len(),
{
    if ls.len() == 0 {
        assert(ls.push(l).drop_first() =~= Seq::<Seq<char>>::empty());
        assert(terminated(Seq::<Seq<char>>::empty()) == Seq::<char>::empty());
        assert(terminated(ls.push(l)) =~= terminated(ls) + l + seq!['\n']);
    } else {
        assert(ls.push(l).drop_first() =~= ls.drop_first().push(l));
        lemma_terminated_push(ls.drop_first(), l);
        assert(terminated(ls.push(l)) =~= terminated(ls) + l + seq!['\n']);
    }
}

/// Joining non-empty lines with newlines and ending with one more newline
/// terminates each line.
pub proof fn lemma_join_terminated(ls: Seq<Seq<char>>)
    requires
        ls.len() > 0,
    ensures
        join_lines(ls) + seq!['\n'] == terminated(ls),
    decreases ls.len(),
{
    if ls.len() == 1 {
        assert(ls.drop_first() =~= Seq::<Seq<char>>::empty());
        assert(terminated(Seq::<Seq<char>>::empty()) == Seq::<char>::empty());
        assert(terminated(ls) =~= ls[0] + seq!['\n']);
    } else {
        lemma_join_terminated(ls.drop_last());
        lemma_terminated_push(ls.drop_last(), ls.last());
        assert(ls.drop_last().push(ls.last()) =~= ls);
        assert(join_lines(ls) + seq!['\n'] =~= terminated(ls.drop_last()) + ls.last() + seq!['\n']);
    }
}

} // verus!

verus! {

/// The decimal digit for `d`.
pub open spec fn digit_char(d: nat) -> char {
    if d == 0 {
        '0'
    } else if d == 1 {
        '1'
    } else if d == 2 {
        '2'
    } else if d == 3 {
        '3'
    } else if d == 4 {
        '4'
    } else if d == 5 {
        '5'
    } else if d == 6 {
        '6'
    } else if d == 7 {
        '7'
    } else if d == 8 {
        '8'
    } else {
        '9'
    }
}

/// `n` written in decimal, as `Display` writes an unsigned integer.
pub open spec fn decimal(n: nat) -> Seq<char>
    decreases n,
{
    if n < 10 {
        seq![digit_char(n)]
    } else {
        decimal(n / 10) + seq![digit_char(n % 10)]
    }
}

/// `n` written in decimal with a leading `-` where negative, as `Display`
/// writes a signed integer.
pub open spec fn int_text(n: int) -> Seq<char> {
    if n < 0 {
        seq!['-'] + decimal((-n) as nat)
    } else {
        decimal(n as nat)
    }
}

/// The decimal digit for `d < 10`.
pub fn digit_of(d: u64) -> (c: char)
    requires
        d < 10,
    ensures
        c == digit_char(d as nat),
{
    if d == 0 {
        '0'
    } else if d == 1 {
        '1'
    } else if d == 2 {
        '2'
    } else if d == 3 {
        '3'
    } else if d == 4 {
        '4'
    } else if d == 5 {
        '5'
    } else if d == 6 {
        '6'
    } else if d == 7 {
        '7'
    } else if d == 8 {
        '8'
    } else {
        '9'
    }
}

/// `n` in decimal.
pub fn decimal_of(n: u64) -> (r: Vec<char>)
    ensures
        r@ == decimal(n as nat),
    decreases n,
{
    if n < 10 {
        let mut v: Vec<char> = Vec::new();
        v.push(digit_of(n));
        assert(v@ =~= seq![digit_char(n as nat)]);
        v
    } else {
        let mut v = decimal_of(n / 10);
        v.push(digit_of(n % 10));
        v
    }
}

/// `n` in decimal, signed.
pub fn int_text_of(n: i64) -> (r: Vec<char>)
    ensures
        r@ == int_text(n as int),
{
    if n < 0 {
        let m: u64 = if n == i64::MIN {
            0x8000_0000_0000_0000u64
        } else {
            (-n) as u64
        };
        let d = decimal_of(m);
        let mut v: Vec<char> = Vec::new();
        v.push('-');
        let mut k: usize = 0;
        while k < d.len()
            invariant
                k <= d.len(),
                v@ == seq!['-'] + d@.take(k as int),
            decreases d.len() - k,
        {
            v.push(d[k]);
            assert(d@.take(k + 1) =~= d@.take(k as int).push(d@[k as int]));
            k = k + 1;
        }
        assert(d@.take(d.len() as int) =~= d@);
        v
    } else {
        decimal_of(n as u64)
    }
}

/// Appends the characters of `t` to `v` (for `Vec<char>` sources).
pub fn extend_vec(v: &mut Vec<char>, t: &Vec<char>)
    ensures
        final(v)@ == old(v)@ + t@,
{
    let ghost v0 = v@;
    let mut k: usize = 0;
    while k < t.len()
        invariant
            k <= t.len(),
            v@ == v0 + t@.take(k as int),
        decreases t.len() - k,
    {
        v.push(t[k]);
        assert(t@.take(k + 1) =~= t@.take(k as int).push(t@[k as int]));
        k = k + 1;
    }
    assert(t@.take(t.len() as int) =~= t@);
}

} // verus!

verus! {

/// Index of the first whitespace character of `s`, or its length.
pub open spec fn ws_index(s: Seq<char>) -> nat
    decreases s.len(),
{
    if s.len() == 0 {
        0
    } else if is_ws(s[0]) {
        0
    } else {
        1 + ws_index(s.drop_first())
    }
}

/// `ws_index` is the first whitespace position, or the length.
pub proof fn lemma_ws_index(s: Seq<char>, p: int)
    requires
        0 <= p <= s.len(),
        forall|k: int| 0 <= k < p ==> !is_ws(s[k]),
        p == s.len() || is_ws(s[p]),
    ensures
        ws_index(s) == p,
    decreases p,
{
    if p > 0 {
        lemma_ws_index(s.drop_first(), p - 1);
    }
}

/// `ws_index` lies within `s`, and nothing before it is whitespace.
pub proof fn lemma_ws_index_bounds(s: Seq<char>)
    ensures
        ws_index(s) <= s.len(),
        forall|k: int| 0 <= k < ws_index(s) ==> !is_ws(s[k]),
        ws_index(s) < s.len() ==> is_ws(s[ws_index(s) as int]),
    decreases s.len(),
{
    if s.len() > 0 && !is_ws(s[0]) {
        lemma_ws_index_bounds(s.drop_first());
        assert forall|k: int| 0 <= k < ws_index(s) implies !is_ws(s[k]) by {
            if k > 0 {
                assert(s[k] == s.drop_first()[k - 1]);
            }
        }
    }
}

/// `trim_start` keeps a suffix of `s`.
pub proof fn lemma_trim_start_suffix(s: Seq<char>)
    ensures
        trim_start(s).len() <= s.len(),
        trim_start(s) == s.skip(s.len() - trim_start(s).len()),
        trim_start(s).len() > 0 ==> !is_ws(trim_start(s)[0]),
    decreases s.len(),
{
    if s.len() > 0 && is_ws(s[0]) {
        lemma_trim_start_suffix(s.drop_first());
        assert(s.drop_first().skip(s.drop_first().len() - trim_start(s).len()) =~= s.skip(
            s.len() - trim_start(s).len(),
        ));
    } else {
        assert(s.skip(0) =~= s);
    }
}

/// The whitespace-separated words of `s`, as `str::split_whitespace`
/// yields them.
pub open spec fn tokens(s: Seq<char>) -> Seq<Seq<char>>
    decreases s.len(),
{
    let t = trim_start(s);
    if t.len() == 0 {
        seq![]
    } else {
        let k = ws_index(t);
        proof {
            lemma_trim_start_suffix(s);
            lemma_ws_index_bounds(t);
        }
        seq![t.take(k as int)] + tokens(t.skip(k as int))
    }
}

/// The words of `s` (`str::split_whitespace`).
pub fn tokens_of(s: &Vec<char>) -> (r: Vec<Vec<char>>)
    ensures
        views(r@) == tokens(s@),
{
    let mut r: Vec<Vec<char>> = Vec::new();
    let mut pos: usize = 0;
    assert(s@.skip(0) =~= s@);
    loop
        invariant
            pos <= s.len(),
            views(r@) + tokens(s@.skip(pos as int)) == tokens(s@),
        decreases s.len() - pos,
    {
        let ghost rest = s@.skip(pos as int);
        let mut a = pos;
        while a < s.len() && is_whitespace(s[a])
            invariant
                pos <= a <= s.len(),
                trim_start(rest) == trim_start(s@.skip(a as int)),
            decreases s.len() - a,
        {
            assert(s@.skip(a as int).drop_first() =~= s@.skip(a + 1));
            a = a + 1;
        }
        let ghost t = s@.skip(a as int);
        assert(trim_start(t) == t);
        if a == s.len() {
            assert(t =~= Seq::<char>::empty());
            assert(views(r@) + Seq::<Seq<char>>::empty() =~= views(r@));
            return r;
        }
        let mut b = a;
        while b < s.len() && !is_whitespace(s[b])
            invariant
                a <= b <= s.len(),
                forall|k: int| a <= k < b ==> !is_ws(#[trigger] s@[k]),
            decreases s.len() - b,
        {
            b = b + 1;
        }
        proof {
            lemma_ws_index(t, (b - a) as int);
        }
        let mut w: Vec<char> = Vec::new();
        let mut k = a;
        while k < b
            invariant
                a <= k <= b <= s.len(),
                w@ == s@.subrange(a as int, k as int),
            decreases b - k,
        {
            w.push(s[k]);
            assert(s@.subrange(a as int, k + 1) =~= s@.subrange(a as int, k as int).push(
                s@[k as int],
            ));
            k = k + 1;
        }
        assert(t.take((b - a) as int) =~= w@);
        assert(t.skip((b - a) as int) =~= s@.skip(b as int));
        assert(tokens(rest) == seq![w@] + tokens(s@.skip(b as int)));
        let ghost r0 = views(r@);
        r.push(w);
        assert(views(r@) =~= r0.push(w@));
        assert(r0.push(w@) + tokens(s@.skip(b as int)) =~= r0 + (seq![w@] + tokens(
            s@.skip(b as int),
        )));
        pos = b;
    }
}

} // verus!

verus! {

/// `index_of` finds the same newline in a longer text.
proof fn lemma_index_of_append(u: Seq<char>, y: Seq<char>, c: char)
    requires
        index_of(u, c) < u.len(),
    ensures
        index_of(u + y, c) == index_of(u, c),
{
    lemma_index_of_bounds(u, c);
    let i = index_of(u, c) as int;
    assert forall|k: int| 0 <= k < i implies (u + y)[k] != c by {
        assert((u + y)[k] == u[k]);
    }
    assert((u + y)[i] == u[i]);
    lemma_index_of(u + y, c, i);
}

/// Splitting a text that ends in a newline, followed by more, gives the
/// lines of each.
pub proof fn lemma_lines_append(u: Seq<char>, y: Seq<char>)
    requires
        u.len() == 0 || u.last() == '\n',
    ensures
        lines(u + y) == lines(u) + lines(y),
    decreases u.len(),
{
    if u.len() == 0 {
        assert(u + y =~= y);
        assert(lines(u) == Seq::<Seq<char>>::empty());
        assert(lines(u) + lines(y) =~= lines(y));
    } else {
        lemma_index_of_bounds(u, '\n');
        if index_of(u, '\n') == u.len() {
            assert(u[u.len() - 1] != '\n');
        }
        let i = index_of(u, '\n') as int;
        lemma_index_of_append(u, y, '\n');
        assert((u + y).take(i) =~= u.take(i));
        assert((u + y).skip(i + 1) =~= u.skip(i + 1) + y);
        let rest = u.skip(i + 1);
        if rest.len() > 0 {
            assert(rest.last() == u.last());
        }
        lemma_lines_append(rest, y);
        assert(lines(u + y) =~= lines(u) + lines(y));
    }
}

/// A text without a newline is one line, or none where it is empty.
pub proof fn lemma_lines_single(x: Seq<char>)
    requires
        !x.contains('\n'),
    ensures
        lines(x) == (if x.len() > 0 {
            seq![x]
        } else {
            Seq::<Seq<char>>::empty()
        }),
{
    if x.len() > 0 {
        assert forall|k: int| 0 <= k < x.len() implies x[k] != '\n' by {
            if x[k] == '\n' {
                assert(x.contains('\n'));
            }
        }
        lemma_index_of(x, '\n', x.len() as int);
    }
}

/// A terminated text is empty or ends in a newline.
pub proof fn lemma_terminated_ends(ls: Seq<Seq<char>>)
    ensures
        terminated(ls).len() == 0 || terminated(ls).last() == '\n',
        ls.len() > 0 ==> terminated(ls).len() > 0,
    decreases ls.len(),
{
    if ls.len() > 0 {
        lemma_terminated_ends(ls.drop_first());
    }
}

/// Splitting lines joined by newlines gives them back (each but the last
/// less a final `'\r'`), except that an empty last line is not yielded.
pub proof fn lemma_lines_join(ls: Seq<Seq<char>>)
    requires
        none_holds(ls, '\n'),
    ensures
        lines(join_lines(ls)).len() <= ls.len(),
        ls.len() > 0 && ls.last().len() > 0 ==> lines(join_lines(ls)).len() == ls.len(),
        lines(join_lines(ls)).len() + 1 >= ls.len(),
        forall|j: int|
            0 <= j < lines(join_lines(ls)).len() ==> #[trigger] lines(join_lines(ls))[j] == (if j
                + 1 < ls.len() {
                strip_cr(ls[j])
            } else {
                ls[j]
            }),
{
    if ls.len() == 0 {
        assert(lines(join_lines(ls)) == Seq::<Seq<char>>::empty());
    } else {
        let a = ls.drop_last();
        let x = ls.last();
        lemma_join_terminated(ls);
        lemma_terminated_push(a, x);
        assert(a.push(x) =~= ls);
        let ja = terminated(a);
        assert(join_lines(ls) + seq!['\n'] == ja + x + seq!['\n']);
        assert(join_lines(ls) =~= ja + x) by {
            let l = join_lines(ls) + seq!['\n'];
            assert(l.drop_last() =~= join_lines(ls));
            assert((ja + x + seq!['\n']).drop_last() =~= ja + x);
        }
        assert(none_holds(a, '\n')) by {
            assert forall|i: int| 0 <= i < a.len() implies !(#[trigger] a[i]).contains('\n') by {
                assert(a[i] == ls[i]);
            }
        }
        assert(!x.contains('\n')) by {
            assert(!ls[ls.len() - 1].contains('\n'));
        }
        lemma_terminated_ends(a);
        lemma_lines_append(ja, x);
        lemma_lines_terminated(a);
        lemma_lines_single(x);
        let la = a.map_values(|l: Seq<char>| strip_cr(l));
        assert forall|j: int| 0 <= j < lines(join_lines(ls)).len() implies #[trigger] lines(
            join_lines(ls),
        )[j] == (if j + 1 < ls.len() {
            strip_cr(ls[j])
        } else {
            ls[j]
        }) by {
            if j < la.len() {
                assert(lines(join_lines(ls))[j] == la[j]);
                assert(a[j] == ls[j]);
            } else {
                assert(lines(join_lines(ls))[j] == x);
            }
        }
    }
}

} // verus!
