//! Where each server software is downloaded, and what the library makes
//! of the replies of the web services it asks.

use vstd::prelude::*;
use crate::console::replace_char;
use crate::external::{json_id, json_id_field};
use crate::text::{chars_of, extend_chars, str_eq, string_of, string_of_range, trim, trim_str};

verus! {

/// The download page for a server software and version: fixed pages for
/// LeafMC, Paper, Spigot and Fabric, the version's page for Purpur and for
/// Vanilla (with its dots made hyphens), and nothing for other software.
pub open spec fn download_page(stype: Seq<char>, version: Seq<char>) -> Seq<char> {
    if stype == "leafmc"@ {
        "https://www.leafmc.one/download"@
    } else if stype == "paper"@ {
        "https://fill-ui.papermc.io/projects/paper"@
    } else if stype == "purpur"@ {
        "https://purpurmc.org/download/purpur/"@ + version
    } else if stype == "spigot"@ {
        "https://www.spigotmc.org/wiki/buildtools/"@
    } else if stype == "fabric"@ {
        "https://fabricmc.net/use/server/"@
    } else if stype == "vanilla"@ {
        "https://www.minecraft.net/en-us/article/minecraft-java-edition-"@ + replace_char(
            version,
            '.',
            '-',
        )
    } else {
        seq![]
    }
}

/// The download page for `stype` at `version`.
pub fn download_url(stype: &str, version: &str) -> (r: String)
    ensures
        r@ == download_page(stype@, version@),
{
    if str_eq(stype, "leafmc") {
        string_of(&chars_of("https://www.leafmc.one/download"))
    } else if str_eq(stype, "paper") {
        string_of(&chars_of("https://fill-ui.papermc.io/projects/paper"))
    } else if str_eq(stype, "purpur") {
        let mut v = chars_of("https://purpurmc.org/download/purpur/");
        extend_chars(&mut v, version);
        string_of(&v)
    } else if str_eq(stype, "spigot") {
        string_of(&chars_of("https://www.spigotmc.org/wiki/buildtools/"))
    } else if str_eq(stype, "fabric") {
        string_of(&chars_of("https://fabricmc.net/use/server/"))
    } else if str_eq(stype, "vanilla") {
        let mut v = chars_of("https://www.minecraft.net/en-us/article/minecraft-java-edition-");
        let w = chars_of(version);
        let ghost v0 = v@;
        let mut i: usize = 0;
        while i < w.len()
            invariant
                i <= w.len(),
                v@ == v0 + replace_char(w@.take(i as int), '.', '-'),
            decreases w.len() - i,
        {
            v.push(if w[i] == '.' { '-' } else { w[i] });
            assert(replace_char(w@.take(i + 1), '.', '-') =~= replace_char(w@.take(i as int), '.', '-').push(
                if w@[i as int] == '.' { '-' } else { w@[i as int] },
            ));
            i = i + 1;
        }
        assert(w@.take(w.len() as int) =~= w@);
        string_of(&v)
    } else {
        String::new()
    }
}

/// The Mojang profile address for a player name.
pub fn profile_url(name: &str) -> (r: String)
    ensures
        r@ == "https://api.mojang.com/users/profiles/minecraft/"@ + name@,
{
    let mut v = chars_of("https://api.mojang.com/users/profiles/minecraft/");
    extend_chars(&mut v, name);
    string_of(&v)
}

/// The number of bytes `c` takes in UTF-8 (`char::len_utf8`).
pub open spec fn utf8_len(c: char) -> nat {
    if (c as u32) < 0x80 {
        1
    } else if (c as u32) < 0x800 {
        2
    } else if (c as u32) < 0x10000 {
        3
    } else {
        4
    }
}

/// The index of the character at which the next `b` bytes of the UTF-8
/// form of `s`, from the character at `i` on, end; none where that point
/// falls inside a character or past the end.
pub open spec fn cut_from(s: Seq<char>, i: int, b: int) -> Option<int>
    decreases s.len() - i,
{
    if b <= 0 {
        if b == 0 {
            Some(i)
        } else {
            None
        }
    } else if i < 0 || i >= s.len() {
        None
    } else if utf8_len(s[i]) > b {
        None
    } else {
        cut_from(s, i + 1, b - utf8_len(s[i]))
    }
}

/// A cut lies between its start and the end of the text.
proof fn lemma_cut_bounds(s: Seq<char>, i: int, b: int)
    requires
        0 <= i <= s.len(),
    ensures
        cut_from(s, i, b) matches Some(k) ==> i <= k <= s.len(),
    decreases s.len() - i,
{
    if b > 0 && i < s.len() && utf8_len(s[i]) <= b {
        lemma_cut_bounds(s, i + 1, b - utf8_len(s[i]));
    }
}

/// An id of 32 UTF-8 bytes in the dashed form of a UUID: its bytes 0-8,
/// 8-12, 12-16, 16-20 and 20-32 joined by `-`; none where the id is not 32
/// bytes long or one of those points falls inside a character.
pub open spec fn dashed(id: Seq<char>) -> Option<Seq<char>> {
    match cut_from(id, 0, 8) {
        None => None,
        Some(a) => match cut_from(id, a, 4) {
            None => None,
            Some(b) => match cut_from(id, b, 4) {
                None => None,
                Some(c) => match cut_from(id, c, 4) {
                    None => None,
                    Some(d) => match cut_from(id, d, 12) {
                        None => None,
                        Some(e) => if e == id.len() {
                            Some(
                                id.subrange(0, a) + seq!['-'] + id.subrange(a, b) + seq!['-']
                                    + id.subrange(b, c) + seq!['-'] + id.subrange(c, d) + seq!['-']
                                    + id.subrange(d, e),
                            )
                        } else {
                            None
                        },
                    },
                },
            },
        },
    }
}

fn utf8_len_of(c: char) -> (r: usize)
    ensures
        r == utf8_len(c),
{
    let u = c as u32;
    if u < 0x80 {
        1
    } else if u < 0x800 {
        2
    } else if u < 0x10000 {
        3
    } else {
        4
    }
}

/// Where the next `b` bytes from the character at `i` end (see `cut_from`).
fn cut_of(v: &Vec<char>, i: usize, b: usize) -> (r: Option<usize>)
    requires
        i <= v.len(),
    ensures
        match r {
            Some(k) => cut_from(v@, i as int, b as int) == Some(k as int),
            None => cut_from(v@, i as int, b as int) is None,
        },
{
    let mut j = i;
    let mut left = b;
    while left > 0
        invariant
            i <= j <= v.len(),
            left <= b,
            cut_from(v@, i as int, b as int) == cut_from(v@, j as int, left as int),
        decreases left,
    {
        if j >= v.len() {
            return None;
        }
        let l = utf8_len_of(v[j]);
        if l > left {
            return None;
        }
        left = left - l;
        j = j + 1;
    }
    Some(j)
}

/// The dashed UUID form of an id of 32 UTF-8 bytes (see `dashed`).
pub fn dashed_uuid(id: &str) -> (r: Option<String>)
    ensures
        match r {
            Some(u) => dashed(id@) == Some(u@),
            None => dashed(id@) is None,
        },
{
    let v = chars_of(id);
    let a = match cut_of(&v, 0, 8) {
        Some(k) => k,
        None => return None,
    };
    proof {
        lemma_cut_bounds(v@, 0, 8);
    }
    let b = match cut_of(&v, a, 4) {
        Some(k) => k,
        None => return None,
    };
    proof {
        lemma_cut_bounds(v@, a as int, 4);
    }
    let c = match cut_of(&v, b, 4) {
        Some(k) => k,
        None => return None,
    };
    proof {
        lemma_cut_bounds(v@, b as int, 4);
    }
    let d = match cut_of(&v, c, 4) {
        Some(k) => k,
        None => return None,
    };
    proof {
        lemma_cut_bounds(v@, c as int, 4);
    }
    let e = match cut_of(&v, d, 12) {
        Some(k) => k,
        None => return None,
    };
    if e != v.len() {
        return None;
    }
    let mut out = chars_of(string_of_range(&v, 0, a).as_str());
    out.push('-');
    extend_chars(&mut out, string_of_range(&v, a, b).as_str());
    out.push('-');
    extend_chars(&mut out, string_of_range(&v, b, c).as_str());
    out.push('-');
    extend_chars(&mut out, string_of_range(&v, c, d).as_str());
    out.push('-');
    extend_chars(&mut out, string_of_range(&v, d, e).as_str());
    Some(string_of(&out))
}

/// The UUID that a Mojang profile reply gives: its `id` in dashed form,
/// where the id is 32 bytes long and each dash falls between characters;
/// none otherwise.
pub open spec fn profile_uuid(reply: Seq<char>) -> Option<Seq<char>> {
    match json_id_field(reply) {
        Some(id) => dashed(id),
        None => None,
    }
}

/// The player's UUID from the text of a Mojang profile reply (the part of
/// `lookup_player_uuid` after the request).
pub fn uuid_from_profile(reply: &str) -> (r: Option<String>)
    ensures
        match r {
            Some(u) => profile_uuid(reply@) == Some(u@),
            None => profile_uuid(reply@) is None,
        },
{
    match json_id(reply) {
        None => None,
        Some(id) => dashed_uuid(id.as_str()),
    }
}

/// The public address that the reply of the address service gives: its
/// text less surrounding whitespace, or `unknown` where there is no reply
/// or it is blank.
pub open spec fn public_ip_text(reply: Option<Seq<char>>) -> Seq<char> {
    match reply {
        Some(t) => if trim(t).len() > 0 {
            trim(t)
        } else {
            "unknown"@
        },
        None => "unknown"@,
    }
}

/// The public address from the reply of the address service (the part of
/// `get_public_ip` after the request).
pub fn public_ip_from(reply: &Option<String>) -> (r: String)
    ensures
        r@ == public_ip_text(crate::dir::opt_view(*reply)),
{
    match reply {
        Some(t) => {
            let s = trim_str(t.as_str());
            if chars_of(s.as_str()).len() > 0 {
                s
            } else {
                string_of(&chars_of("unknown"))
            }
        },
        None => string_of(&chars_of("unknown")),
    }
}

} // verus!

verus! {

/// The server software that an entry of the software menu picks: LeafMC,
/// Paper, Purpur, Spigot, Fabric and Vanilla, numbered from 1.
pub open spec fn software_text(choice: nat) -> Option<Seq<char>> {
    if choice == 1 {
        Some("leafmc"@)
    } else if choice == 2 {
        Some("paper"@)
    } else if choice == 3 {
        Some("purpur"@)
    } else if choice == 4 {
        Some("spigot"@)
    } else if choice == 5 {
        Some("fabric"@)
    } else if choice == 6 {
        Some("vanilla"@)
    } else {
        None
    }
}

/// The server software picked by a choice of the software menu.
pub fn software_for_choice(choice: usize) -> (r: Option<&'static str>)
    ensures
        match r {
            Some(t) => software_text(choice as nat) == Some(t@),
            None => software_text(choice as nat) is None,
        },
{
    if choice == 1 {
        Some("leafmc")
    } else if choice == 2 {
        Some("paper")
    } else if choice == 3 {
        Some("purpur")
    } else if choice == 4 {
        Some("spigot")
    } else if choice == 5 {
        Some("fabric")
    } else if choice == 6 {
        Some("vanilla")
    } else {
        None
    }
}

} // verus!
