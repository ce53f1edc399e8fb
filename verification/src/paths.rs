//! Paths held as strings: joining, the last component, extensions, and
//! the home-relative form in which paths are shown.

use vstd::prelude::*;
use crate::text::{chars_of, extend_vec, string_of};

verus! {

/// `base` joined with `part` as `Path::join` does it: an absolute `part`
/// replaces `base`; otherwise a `'/'` is put between them unless `base` is
/// empty or already ends in one.
pub open spec fn path_join(base: Seq<char>, part: Seq<char>) -> Seq<char> {
    if part.len() > 0 && part[0] == '/' {
        part
    } else if base.len() == 0 || base.last() == '/' {
        base + part
    } else {
        base + seq!['/'] + part
    }
}

/// `base` joined with `part` (`Path::join`).
pub fn join(base: &str, part: &str) -> (r: String)
    ensures
        r@ == path_join(base@, part@),
{
    let b = chars_of(base);
    let p = chars_of(part);
    if p.len() > 0 && p[0] == '/' {
        return string_of(&p);
    }
    let mut v = b.clone();
    if b.len() > 0 && b[b.len() - 1] != '/' {
        v.push('/');
    }
    extend_vec(&mut v, &p);
    string_of(&v)
}

/// Position just after the last `'/'` of `s`, or 0 where it holds none.
pub open spec fn segment_start(s: Seq<char>) -> nat
    decreases s.len(),
{
    if s.len() == 0 {
        0
    } else if s.last() == '/' {
        s.len()
    } else {
        segment_start(s.drop_last())
    }
}

/// `segment_start` lies within `s`, and only the character before it is a `'/'`.
pub proof fn lemma_segment_start(s: Seq<char>)
    ensures
        segment_start(s) <= s.len(),
        forall|k: int| segment_start(s) <= k < s.len() ==> s[k] != '/',
        segment_start(s) > 0 ==> s[segment_start(s) - 1] == '/',
    decreases s.len(),
{
    if s.len() > 0 && s.last() != '/' {
        lemma_segment_start(s.drop_last());
        assert forall|k: int| segment_start(s) <= k < s.len() implies s[k] != '/' by {
            if k < s.len() - 1 {
                assert(s[k] == s.drop_last()[k]);
            }
        }
    }
}

/// The last component of a path, as `Path::file_name` gives it: trailing
/// `'/'` and `.` components are passed over; none where the path is empty,
/// is the root, or ends in `..`.
pub open spec fn file_name(s: Seq<char>) -> Option<Seq<char>>
    decreases s.len(),
{
    if s.len() == 0 {
        None
    } else if s.last() == '/' {
        file_name(s.drop_last())
    } else {
        let st = segment_start(s);
        let seg = s.skip(st as int);
        if seg == seq!['.'] {
            proof {
                lemma_segment_start(s.drop_last());
            }
            file_name(s.take(st as int))
        } else if seg == seq!['.', '.'] {
            None
        } else {
            Some(seg)
        }
    }
}

/// The last component of the path `s` (`Path::file_name`).
pub fn file_name_of(s: &str) -> (r: Option<String>)
    ensures
        r matches Some(n) ==> file_name(s@) == Some(n@),
        r is None ==> file_name(s@) is None,
{
    let v = chars_of(s);
    let mut end = v.len();
    assert(v@.take(end as int) =~= v@);
    loop
        invariant
            end <= v.len(),
            file_name(v@) == file_name(v@.take(end as int)),
            v@ == s@,
        decreases end,
    {
        let ghost t = v@.take(end as int);
        if end == 0 {
            return None;
        }
        if v[end - 1] == '/' {
            assert(t.drop_last() =~= v@.take(end - 1));
            end = end - 1;
        } else {
            let mut st = end;
            while st > 0 && v[st - 1] != '/'
                invariant
                    st <= end <= v.len(),
                    forall|k: int| st <= k < end ==> v@[k] != '/',
                decreases st,
            {
                st = st - 1;
            }
            proof {
                lemma_segment_start(t);
                lemma_segment_start_is(t, st as int);
            }
            let seg_len = end - st;
            assert(t.skip(st as int) =~= v@.subrange(st as int, end as int));
            if seg_len == 1 && v[st] == '.' {
                assert(t.skip(st as int) =~= seq!['.']);
                assert(t.take(st as int) =~= v@.take(st as int));
                end = st;
            } else if seg_len == 2 && v[st] == '.' && v[st + 1] == '.' {
                assert(t.skip(st as int) =~= seq!['.', '.']);
                return None;
            } else {
                let mut n: Vec<char> = Vec::new();
                let mut k = st;
                while k < end
                    invariant
                        st <= k <= end <= v.len(),
                        n@ == v@.subrange(st as int, k as int),
                    decreases end - k,
                {
                    n.push(v[k]);
                    assert(v@.subrange(st as int, k + 1) =~= v@.subrange(st as int, k as int).push(
                        v@[k as int],
                    ));
                    k = k + 1;
                }
                if seg_len == 1 {
                    assert(t.skip(st as int) != seq!['.']) by {
                        assert(t.skip(st as int)[0] != '.');
                    }
                }
                if seg_len == 2 {
                    assert(t.skip(st as int) != seq!['.', '.']) by {
                        if v@[st as int] != '.' {
                            assert(t.skip(st as int)[0] != '.');
                        } else {
                            assert(t.skip(st as int)[1] != '.');
                        }
                    }
                }
                return Some(string_of(&n));
            }
        }
    }
}

proof fn lemma_segment_start_is(t: Seq<char>, st: int)
    requires
        0 <= st <= t.len(),
        forall|k: int| st <= k < t.len() ==> t[k] != '/',
        st == 0 || t[st - 1] == '/',
    ensures
        segment_start(t) == st,
    decreases t.len(),
{
    if t.len() > 0 && st < t.len() {
        lemma_segment_start_is(t.drop_last(), st);
    }
}

/// The metadata folder of a server directory: `<dir>/fastmc`.
pub fn sm_dir(dir: &str) -> (r: String)
    ensures
        r@ == path_join(dir@, "fastmc"@),
{
    join(dir, "fastmc")
}

/// The metadata file `key` of a server directory: `<dir>/fastmc/<key>`.
pub fn sm_file(dir: &str, key: &str) -> (r: String)
    ensures
        r@ == path_join(path_join(dir@, "fastmc"@), key@),
{
    let d = sm_dir(dir);
    join(d.as_str(), key)
}

/// The RCON credentials file of a server directory: `<dir>/.mcserver.conf`.
pub fn conf_path(dir: &str) -> (r: String)
    ensures
        r@ == path_join(dir@, ".mcserver.conf"@),
{
    join(dir, ".mcserver.conf")
}

/// The name of a server: the last component of its directory's path.
pub fn server_name(dir: &str) -> (r: String)
    requires
        file_name(dir@) is Some,
    ensures
        file_name(dir@) == Some(r@),
{
    match file_name_of(dir) {
        Some(n) => n,
        None => String::new(),
    }
}


} // verus!

verus! {

/// The folder that holds the servers: `<home>/.local/share/fastmc`.
pub fn data_dir(home: &str) -> (r: String)
    ensures
        r@ == path_join(home@, ".local/share/fastmc"@),
{
    join(home, ".local/share/fastmc")
}

/// The folder of backups: `<data>/backups`.
pub fn backup_base(home: &str) -> (r: String)
    ensures
        r@ == path_join(path_join(home@, ".local/share/fastmc"@), "backups"@),
{
    join(data_dir(home).as_str(), "backups")
}

/// The folder of crash logs: `<data>/LOGS`.
pub fn log_base(home: &str) -> (r: String)
    ensures
        r@ == path_join(path_join(home@, ".local/share/fastmc"@), "LOGS"@),
{
    join(data_dir(home).as_str(), "LOGS")
}

} // verus!

verus! {

/// The crash log of a day: `<log folder>/<date>.log`, the date written as
/// `YYYY-MM-DD`.
pub fn crash_log_path(log_base: &str, date: &str) -> (r: String)
    ensures
        r@ == path_join(log_base@, date@ + ".log"@),
{
    let mut v = chars_of(date);
    let ext = chars_of(".log");
    extend_vec(&mut v, &ext);
    join(log_base, string_of(&v).as_str())
}

} // verus!
