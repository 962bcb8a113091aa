//! Reading the TTL out of `ping` output. Running `ping` is I/O and happens
//! outside the library; the functions here read what it printed.

use vstd::prelude::*;

use crate::text::{
    chars_of, has_prefix, lines, lines_exec, parse_unsigned, parse_unsigned_exec, slice_of,
    starts_with, tokens, tokens_exec, views,
};

verus! {

/// The first word at or after `i` that starts with `ttl=`.
pub open spec fn ttl_word_from(words: Seq<Seq<char>>, i: int) -> Option<int>
    decreases words.len() - i,
{
    if i < 0 || i >= words.len() {
        None
    } else if starts_with(words[i], "ttl="@) {
        Some(i)
    } else {
        ttl_word_from(words, i + 1)
    }
}

/// The TTL a line reports: the first whitespace-separated word that starts with
/// `ttl=`, whose remainder must read as a number from 0 to 255.
pub open spec fn line_ttl(line: Seq<char>) -> Option<u8> {
    let words = tokens(line);
    match ttl_word_from(words, 0) {
        Some(k) => match parse_unsigned(
            words[k].subrange("ttl="@.len() as int, words[k].len() as int),
            255,
        ) {
            Ok(v) => Some(v as u8),
            Err(_) => None,
        },
        None => None,
    }
}

/// The first line at or after `i` that reports a TTL.
pub open spec fn ttl_line_from(ls: Seq<Seq<char>>, i: int) -> Option<u8>
    decreases ls.len() - i,
{
    if i < 0 || i >= ls.len() {
        None
    } else {
        match line_ttl(ls[i]) {
            Some(t) => Some(t),
            None => ttl_line_from(ls, i + 1),
        }
    }
}

/// The TTL `ping` output reports: that of the first line which reports one.
pub open spec fn output_ttl(output: Seq<char>) -> Option<u8> {
    ttl_line_from(lines(output), 0)
}

fn ttl_of_line(line: &[char]) -> (r: Option<u8>)
    ensures
        r == line_ttl(line@),
{
    let prefix = chars_of("ttl=");
    let words = tokens_exec(line);
    let ghost ws = views(words@);
    let mut i: usize = 0;
    while i < words.len()
        invariant
            i <= words.len(),
            ws == views(words@),
            ws == tokens(line@),
            prefix@ == "ttl="@,
            ttl_word_from(ws, 0) == ttl_word_from(ws, i as int),
        decreases words.len() - i,
    {
        proof {
            assert(ws[i as int] == words@[i as int]@);
        }
        if has_prefix(words[i].as_slice(), prefix.as_slice()) {
            let word = &words[i];
            let digits = slice_of(word.as_slice(), prefix.len(), word.len());
            proof {
                assert(ttl_word_from(ws, i as int) == Some(i as int));
            }
            return match parse_unsigned_exec(digits.as_slice(), 255) {
                Ok(v) => Some(v as u8),
                Err(_) => None,
            };
        }
        i += 1;
    }
    None
}

/// Read the TTL from one line of `ping` output, e.g.
/// `64 bytes from 192.168.1.1: icmp_seq=1 ttl=64 time=0.5 ms` → `64`.
pub fn parse_ttl_from_line(line: &str) -> (r: Option<u8>)
    ensures
        r == line_ttl(line@),
{
    let text = chars_of(line);
    ttl_of_line(text.as_slice())
}

/// Read the TTL from the whole of `ping`'s output: that of the first reply line
/// that carries one.
pub fn ttl_from_ping_output(output: &str) -> (r: Option<u8>)
    ensures
        r == output_ttl(output@),
{
    let text = chars_of(output);
    let ls = lines_exec(text.as_slice());
    let ghost lv = views(ls@);
    let mut i: usize = 0;
    while i < ls.len()
        invariant
            i <= ls.len(),
            lv == views(ls@),
            lv == lines(output@),
            ttl_line_from(lv, 0) == ttl_line_from(lv, i as int),
        decreases ls.len() - i,
    {
        proof {
            assert(lv[i as int] == ls@[i as int]@);
        }
        match ttl_of_line(ls[i].as_slice()) {
            Some(t) => return Some(t),
            None => {},
        }
        i += 1;
    }
    None
}

} // verus!
