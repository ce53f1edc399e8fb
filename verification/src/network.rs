//! The port a server runs on, and how `server.properties` is set to it.

use vstd::prelude::*;
use crate::config::{occurs, occurs_in};
use crate::external::{regex_replace, regex_replaced};
use crate::text::{chars_of, extend_chars, string_of};

verus! {

/// The port chosen at the prompt: what was typed, or 25565 where nothing
/// was.
pub fn port_or_default(input: &str) -> (r: String)
    ensures
        r@ == (if input@.len() == 0 {
            "25565"@
        } else {
            input@
        }),
{
    let v = chars_of(input);
    if v.len() == 0 {
        string_of(&chars_of("25565"))
    } else {
        string_of(&v)
    }
}

/// `server-port=` as it starts the port line.
pub open spec fn port_key() -> Seq<char> {
    "server-port="@
}

/// The pattern of the port line: `server-port=` and the rest of its line.
pub open spec fn port_pattern() -> Seq<char> {
    "server-port=.*"@
}

/// `server.properties` set to `port`: where the text holds
/// `server-port=`, the first match of `server-port=.*` is replaced by
/// `server-port=<port>` as `Regex::replace` replaces it (the text stays as
/// it is should the pattern not compile); otherwise `\nserver-port=<port>`
/// is appended.
pub open spec fn port_properties(content: Seq<char>, port: Seq<char>) -> Seq<char> {
    if occurs(port_key(), content) {
        match regex_replaced(port_pattern(), content, port_key() + port) {
            Some(t) => t,
            None => content,
        }
    } else {
        content + "\nserver-port="@ + port
    }
}

/// The content of `server.properties` set to run on `port`.
pub fn properties_with_port(content: &str, port: &str) -> (r: String)
    ensures
        r@ == port_properties(content@, port@),
{
    let c = chars_of(content);
    let key = chars_of("server-port=");
    proof {
        reveal_strlit("server-port=");
        reveal_strlit("server-port=.*");
    }
    if occurs_in(&c, &key) {
        let mut rep = key.clone();
        extend_chars(&mut rep, port);
        let rs = string_of(&rep);
        match regex_replace("server-port=.*", content, rs.as_str()) {
            Some(t) => t,
            None => string_of(&c),
        }
    } else {
        let mut v = c.clone();
        extend_chars(&mut v, "\nserver-port=");
        extend_chars(&mut v, port);
        string_of(&v)
    }
}

} // verus!
