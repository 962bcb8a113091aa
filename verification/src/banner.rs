//! Reducing what a service sends back to a one-line banner. Grabbing the bytes
//! is I/O and happens outside the library; the functions here decide what of a
//! reply is kept.

use vstd::prelude::*;

use crate::text::{
    chars_of, has_prefix, lines, lines_exec, lower, lowercase, push_all, starts_with, trim,
    trim_exec, views, string_of,
};

use crate::format::{ipv4_text, push_ipv4};

verus! {

/// The bytes of the first line: everything before the first CR or LF.
pub open spec fn first_line(b: Seq<u8>) -> Seq<u8>
    decreases b.len(),
{
    if b.len() > 0 && b[0] != 10 && b[0] != 13 {
        seq![b[0]] + first_line(b.drop_first())
    } else {
        Seq::empty()
    }
}

/// A tab or a printable ASCII character.
pub open spec fn is_printable(b: u8) -> bool {
    b == 9 || (0x20 <= b && b < 0x7f)
}

/// The printable bytes of `b`, in order, as characters.
pub open spec fn printable_text(b: Seq<u8>) -> Seq<char>
    decreases b.len(),
{
    if b.len() == 0 {
        Seq::empty()
    } else if is_printable(b.last()) {
        printable_text(b.drop_last()).push(b.last() as char)
    } else {
        printable_text(b.drop_last())
    }
}

/// The banner a greeting gives: its first line, printable ASCII only (which drops
/// Telnet negotiation and control bytes), trimmed; nothing if no text is left.
pub open spec fn greeting_banner(bytes: Seq<u8>) -> Option<Seq<char>> {
    let line = trim(printable_text(first_line(bytes)));
    if line.len() == 0 {
        None
    } else {
        Some(line)
    }
}

proof fn lemma_first_line(b: Seq<u8>, i: int, j: int)
    requires
        0 <= i <= j <= b.len(),
        forall|k: int| i <= k < j ==> b[k] != 10 && b[k] != 13,
        j == b.len() || b[j] == 10 || b[j] == 13,
    ensures
        first_line(b.subrange(i, b.len() as int)) == b.subrange(i, j),
    decreases j - i,
{
    if i < j {
        assert(b.subrange(i, b.len() as int).drop_first() =~= b.subrange(i + 1, b.len() as int));
        lemma_first_line(b, i + 1, j);
        assert(b.subrange(i, j) =~= seq![b[i]] + b.subrange(i + 1, j));
    } else {
        assert(b.subrange(i, j) =~= Seq::<u8>::empty());
    }
}

/// Reduce a greeting to its first printable line: stop at the first CR/LF and
/// keep only printable ASCII, which drops Telnet IAC/control bytes. `None` if
/// nothing readable remains.
pub fn parse_greeting(bytes: &[u8]) -> (r: Option<String>)
    ensures
        match r {
            Some(s) => greeting_banner(bytes@) == Some(s@),
            None => greeting_banner(bytes@) is None,
        },
{
    let mut line: Vec<char> = Vec::new();
    let mut i: usize = 0;
    while i < bytes.len() && bytes[i] != 10 && bytes[i] != 13
        invariant
            i <= bytes.len(),
            forall|k: int| 0 <= k < i ==> bytes@[k] != 10 && bytes@[k] != 13,
            line@ == printable_text(bytes@.subrange(0, i as int)),
        decreases bytes.len() - i,
    {
        let b = bytes[i];
        proof {
            assert(bytes@.subrange(0, i + 1).drop_last() =~= bytes@.subrange(0, i as int));
        }
        if b == 9 || (0x20 <= b && b < 0x7f) {
            line.push(b as char);
        }
        i += 1;
    }
    proof {
        lemma_first_line(bytes@, 0, i as int);
        assert(bytes@.subrange(0, bytes@.len() as int) =~= bytes@);
    }
    let banner = trim_exec(line.as_slice());
    if banner.len() == 0 {
        None
    } else {
        Some(string_of(banner.as_slice()))
    }
}

/// The first line at or after `i` that starts with `Server:` in any letter case.
pub open spec fn server_line_from(ls: Seq<Seq<char>>, i: int) -> Option<int>
    decreases ls.len() - i,
{
    if i < 0 || i >= ls.len() {
        None
    } else if starts_with(lower(ls[i]), "server:"@) {
        Some(i)
    } else {
        server_line_from(ls, i + 1)
    }
}

/// The banner an HTTP response gives: its status line, joined with its first
/// `Server:` header line as `"{status} | {header}"` when it has one; nothing for
/// an empty response.
pub open spec fn http_banner(data: Seq<char>) -> Option<Seq<char>> {
    if data.len() == 0 {
        None
    } else {
        let ls = lines(data);
        let status = if ls.len() > 0 {
            ls[0]
        } else {
            Seq::empty()
        };
        match server_line_from(ls, 0) {
            Some(k) => Some(status + " | "@ + ls[k]),
            None => Some(status),
        }
    }
}

/// Extract a banner from an HTTP response: the status line, optionally joined with
/// the `Server:` header as `"{status} | {header}"`. `None` on empty input.
pub fn parse_http_response(data: &str) -> (r: Option<String>)
    ensures
        match r {
            Some(s) => http_banner(data@) == Some(s@),
            None => http_banner(data@) is None,
        },
{
    let text = chars_of(data);
    if text.len() == 0 {
        return None;
    }
    let ls = lines_exec(text.as_slice());
    let ghost lv = views(ls@);
    let status: Vec<char> = if ls.len() > 0 {
        let mut copy: Vec<char> = Vec::new();
        push_chars(&mut copy, ls[0].as_slice());
        proof {
            assert(lv[0] == ls@[0]@);
            assert(copy@ =~= lv[0]);
        }
        copy
    } else {
        let empty: Vec<char> = Vec::new();
        proof {
            assert(empty@ =~= Seq::<char>::empty());
        }
        empty
    };
    let server = chars_of("server:");
    let mut k: usize = 0;
    while k < ls.len()
        invariant
            k <= ls.len(),
            lv == views(ls@),
            lv == lines(text@),
            text@ == data@,
            text@.len() > 0,
            status@ == (if lv.len() > 0 {
                lv[0]
            } else {
                Seq::<char>::empty()
            }),
            server@ == "server:"@,
            server_line_from(lv, 0) == server_line_from(lv, k as int),
        decreases ls.len() - k,
    {
        let lowered = lowercase(ls[k].as_slice());
        proof {
            assert(lv[k as int] == ls@[k as int]@);
        }
        if has_prefix(lowered.as_slice(), server.as_slice()) {
            let mut banner = string_of(status.as_slice());
            crate::text::push_str(&mut banner, " | ");
            push_all(&mut banner, ls[k].as_slice());
            proof {
                assert(server_line_from(lv, k as int) == Some(k as int));
            }
            return Some(banner);
        }
        k += 1;
    }
    Some(string_of(status.as_slice()))
}

/// The ports asked with an HTTP request rather than read for a greeting.
pub open spec fn http_port(port: u16) -> bool {
    port == 80 || port == 443 || port == 631 || port == 8000 || port == 8080 || port == 8443
        || port == 8888
}

/// Whether a port's banner is had by sending an HTTP request (web and printing
/// ports); every other port is read for the greeting its service sends first.
pub fn asks_http(port: u16) -> (r: bool)
    ensures
        r == http_port(port),
{
    port == 80 || port == 443 || port == 631 || port == 8000 || port == 8080 || port == 8443
        || port == 8888
}

/// The request sent to an HTTP port: a `HEAD /` naming the host.
pub open spec fn http_request_text(ip: u32) -> Seq<char> {
    "HEAD / HTTP/1.0\r\nHost: "@ + ipv4_text(ip) + "\r\nUser-Agent: scout\r\nConnection: close\r\n\r\n"@
}

/// The HTTP request that asks a web port for its status line and headers.
pub fn http_request(ip: u32) -> (r: String)
    ensures
        r@ == http_request_text(ip),
{
    let mut out = String::from_str("HEAD / HTTP/1.0\r\nHost: ");
    push_ipv4(&mut out, ip);
    crate::text::push_str(&mut out, "\r\nUser-Agent: scout\r\nConnection: close\r\n\r\n");
    out
}

fn push_chars(out: &mut Vec<char>, v: &[char])
    ensures
        final(out)@ == old(out)@ + v@,
{
    let ghost start = out@;
    let mut i: usize = 0;
    while i < v.len()
        invariant
            i <= v.len(),
            out@ == start + v@.take(i as int),
        decreases v.len() - i,
    {
        out.push(v[i]);
        i += 1;
        assert(out@ =~= start + v@.take(i as int));
    }
    assert(v@.take(v.len() as int) =~= v@);
}

} // verus!
