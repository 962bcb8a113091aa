//! Parsing a target — a single IPv4 address or a CIDR block — into the hosts to scan.

use vstd::prelude::*;

use crate::text::{chars_of, digits_value, parse_unsigned, split_on, split_on_exec, views};

verus! {

/// 2 to the power `n`.
pub open spec fn two_pow(n: nat) -> nat
    decreases n,
{
    if n == 0 {
        1
    } else {
        2 * two_pow((n - 1) as nat)
    }
}

/// The number of addresses in a block with a `len`-bit network prefix.
pub open spec fn block_size(len: u8) -> nat {
    two_pow((32 - len) as nat)
}

pub proof fn lemma_two_pow_positive(n: nat)
    ensures
        two_pow(n) >= 1,
    decreases n,
{
    if n > 0 {
        lemma_two_pow_positive((n - 1) as nat);
    }
}

pub proof fn lemma_two_pow_add(a: nat, b: nat)
    ensures
        two_pow(a + b) == two_pow(a) * two_pow(b),
    decreases a,
{
    if a > 0 {
        lemma_two_pow_add((a - 1) as nat, b);
        assert(two_pow(a + b) == 2 * two_pow((a - 1 + b) as nat));
        assert(2 * (two_pow((a - 1) as nat) * two_pow(b)) == (2 * two_pow((a - 1) as nat))
            * two_pow(b)) by (nonlinear_arith);
        assert(two_pow(a) == 2 * two_pow((a - 1) as nat));
    } else {
        assert(two_pow(a) == 1);
        assert(a + b == b);
    }
}

pub proof fn lemma_two_pow_32()
    ensures
        two_pow(32) == 0x1_0000_0000,
{
    reveal_with_fuel(two_pow, 33);
}

/// A block-aligned address leaves room for the whole block below 2³².
pub proof fn lemma_block_fits(first: u32, len: u8)
    requires
        len <= 32,
        (first as nat) % block_size(len) == 0,
    ensures
        first as nat + block_size(len) <= 0x1_0000_0000,
{
    let k = (32 - len) as nat;
    let size = two_pow(k);
    let rest = two_pow(len as nat);
    lemma_two_pow_add(k, len as nat);
    lemma_two_pow_32();
    lemma_two_pow_positive(k);
    lemma_two_pow_positive(len as nat);
    let q = (first as nat) / size;
    assert(first as nat == size * q) by (nonlinear_arith)
        requires
            (first as nat) % size == 0,
            size >= 1,
            q == (first as nat) / size,
    ;
    assert(size * rest == 0x1_0000_0000);
    assert(q < rest) by (nonlinear_arith)
        requires
            first as nat == size * q,
            (first as nat) < size * rest,
            size >= 1,
    ;
    assert(size * q + size <= size * rest) by (nonlinear_arith)
        requires
            q + 1 <= rest,
            size >= 1,
    ;
}

/// The addresses of the block starting at `first` with a `len`-bit prefix, in order.
pub open spec fn block_addresses(first: u32, len: u8) -> Seq<u32> {
    Seq::new(block_size(len), |i: int| (first + i) as u32)
}

/// The position of the last `/` among the first `n` characters.
pub open spec fn last_slash(s: Seq<char>, n: int) -> Option<int>
    decreases n,
{
    if n <= 0 {
        None
    } else if s[n - 1] == '/' {
        Some(n - 1)
    } else {
        last_slash(s, n - 1)
    }
}

/// The block a CIDR text names, as its first address and prefix length: the text
/// is split at its last `/` into a dotted-quad address and a prefix length read
/// as a `u8` (an optional `+`, then decimal digits); the length is at most 32
/// and the address has no bit set below the prefix. A text without `/` is a
/// single address, a block of length 32.
pub open spec fn cidr_block(s: Seq<char>) -> Option<(u32, u8)> {
    match last_slash(s, s.len() as int) {
        None => match ipv4_address(s) {
            Some(a) => Some((a, 32u8)),
            None => None,
        },
        Some(pos) => match (
            ipv4_address(s.subrange(0, pos)),
            parse_unsigned(s.subrange(pos + 1, s.len() as int), 255),
        ) {
            (Some(a), Ok(len)) => if len <= 32 && (a as nat) % block_size(len as u8) == 0 {
                Some((a, len as u8))
            } else {
                None
            },
            _ => None,
        },
    }
}

/// Calls `<cidr::Ipv4Cidr as FromStr>::from_str` and hands back the block's first
/// address and network length. Claimed: the crate's parser accepts exactly the
/// texts `cidr_block` describes and gives that block. Its source splits at the
/// last `/` (`parse_cidr_full`), reads the address with `Ipv4Addr::from_str` (four
/// decimal octets, no leading zeros, as the standard library documents) and the
/// length with `u8::from_str`, and `Ipv4Cidr::new` then rejects a length over 32
/// or an address with host bits set; without `/` the address is taken as a
/// single-address block (`new_host`).
#[verifier::external_body]
fn parse_cidr_block(s: &str) -> (r: Option<(u32, u8)>)
    ensures
        r == cidr_block(s@),
{
    match s.parse::<cidr::Ipv4Cidr>() {
        Ok(block) => Some((u32::from(block.first_address()), block.network_length())),
        Err(_) => None,
    }
}

/// Every address of a block, in increasing order (what iterating an
/// `Ipv4Cidr` yields).
pub fn block_addresses_exec(first: u32, len: u8) -> (r: Vec<u32>)
    requires
        len <= 32,
        (first as nat) % block_size(len) == 0,
    ensures
        r@ == block_addresses(first, len),
{
    proof {
        lemma_block_fits(first, len);
    }
    let k: u8 = 32 - len;
    let mut size: u64 = 1;
    let mut e: u8 = 0;
    while e < k
        invariant
            e <= k,
            k == 32 - len,
            size == two_pow(e as nat),
            size <= 0x1_0000_0000,
        decreases k - e,
    {
        proof {
            lemma_two_pow_add(e as nat, (k - e) as nat);
            lemma_two_pow_add(e as nat + 1, (k - e - 1) as nat);
            lemma_two_pow_positive((k - e - 1) as nat);
            lemma_two_pow_add(k as nat, len as nat);
            lemma_two_pow_positive(len as nat);
            lemma_two_pow_32();
            assert(two_pow(e as nat + 1) <= two_pow(k as nat)) by (nonlinear_arith)
                requires
                    two_pow(k as nat) == two_pow(e as nat + 1) * two_pow((k - e - 1) as nat),
                    two_pow((k - e - 1) as nat) >= 1,
            ;
            assert(two_pow(k as nat) <= 0x1_0000_0000) by (nonlinear_arith)
                requires
                    two_pow(32) == two_pow(k as nat) * two_pow(len as nat),
                    two_pow(len as nat) >= 1,
                    two_pow(32) == 0x1_0000_0000,
            ;
        }
        size = size * 2;
        e = e + 1;
    }
    let mut out: Vec<u32> = Vec::new();
    let mut i: u64 = 0;
    while i < size
        invariant
            i <= size,
            size == block_size(len),
            first as nat + size <= 0x1_0000_0000,
            out@ == block_addresses(first, len).take(i as int),
        decreases size - i,
    {
        out.push((first as u64 + i) as u32);
        i += 1;
        assert(out@ =~= block_addresses(first, len).take(i as int));
    }
    assert(out@ =~= block_addresses(first, len));
    out
}

/// A dotted-quad group as the standard library reads it: one to three ASCII
/// digits, no leading zero unless the group is `0` itself, a value up to 255.
pub open spec fn octet(group: Seq<char>) -> Option<nat> {
    if 1 <= group.len() <= 3 && !(group.len() > 1 && group[0] == '0') {
        match digits_value(group, 255, 0) {
            Ok(v) => Some(v),
            Err(_) => None,
        }
    } else {
        None
    }
}

/// The address a dotted-quad text names (`Ipv4Addr::from_str`): exactly four
/// groups separated by `.`, the first group the most significant byte.
pub open spec fn ipv4_address(s: Seq<char>) -> Option<u32> {
    let groups = split_on(s, '.');
    if groups.len() != 4 {
        None
    } else {
        match (octet(groups[0]), octet(groups[1]), octet(groups[2]), octet(groups[3])) {
            (Some(a), Some(b), Some(c), Some(d)) => Some(
                (a * 0x100_0000 + b * 0x1_0000 + c * 0x100 + d) as u32,
            ),
            _ => None,
        }
    }
}

fn octet_exec(group: &[char]) -> (r: Option<u32>)
    ensures
        match r {
            Some(v) => octet(group@) == Some(v as nat) && v <= 255,
            None => octet(group@) is None,
        },
{
    if group.len() < 1 || group.len() > 3 || (group.len() > 1 && group[0] == '0') {
        return None;
    }
    let mut acc: u32 = 0;
    let mut i: usize = 0;
    proof {
        assert(group@.subrange(0, group@.len() as int) =~= group@);
    }
    while i < group.len()
        invariant
            i <= group.len(),
            acc <= 255,
            digits_value(group@, 255, 0) == digits_value(
                group@.subrange(i as int, group@.len() as int),
                255,
                acc as nat,
            ),
        decreases group.len() - i,
    {
        let c = group[i];
        proof {
            assert(group@.subrange(i as int, group@.len() as int)[0] == c);
            assert(group@.subrange(i as int, group@.len() as int).drop_first() =~= group@.subrange(
                i + 1,
                group@.len() as int,
            ));
        }
        if !('0' <= c && c <= '9') {
            return None;
        }
        let next = acc * 10 + ((c as u32) - 48);
        if next > 255 {
            return None;
        }
        acc = next;
        i += 1;
    }
    proof {
        assert(group@.subrange(group@.len() as int, group@.len() as int) =~= Seq::<
            char,
        >::empty());
    }
    Some(acc)
}

/// Read a dotted-quad IPv4 address, as `Ipv4Addr::from_str` does.
pub fn parse_ipv4(s: &str) -> (r: Option<u32>)
    ensures
        r == ipv4_address(s@),
{
    let text = chars_of(s);
    let groups = split_on_exec(text.as_slice(), '.');
    if groups.len() != 4 {
        return None;
    }
    proof {
        assert(views(groups@)[0] == groups@[0]@);
        assert(views(groups@)[1] == groups@[1]@);
        assert(views(groups@)[2] == groups@[2]@);
        assert(views(groups@)[3] == groups@[3]@);
    }
    let a = match octet_exec(groups[0].as_slice()) {
        Some(v) => v,
        None => return None,
    };
    let b = match octet_exec(groups[1].as_slice()) {
        Some(v) => v,
        None => return None,
    };
    let c = match octet_exec(groups[2].as_slice()) {
        Some(v) => v,
        None => return None,
    };
    let d = match octet_exec(groups[3].as_slice()) {
        Some(v) => v,
        None => return None,
    };
    Some(a * 0x100_0000 + b * 0x1_0000 + c * 0x100 + d)
}

/// Why a target could not be parsed.
#[derive(Clone, Copy, Debug, PartialEq, Eq, Structural)]
pub enum TargetParseError {
    /// The text is neither an IPv4 address nor a CIDR block.
    Unsupported,
}

impl TargetParseError {
    /// The human-readable message for the error.
    pub fn to_string(&self) -> (r: String)
        ensures
            r@ == "Target not supported; supply an IP address or CIDR"@,
    {
        String::from_str("Target not supported; supply an IP address or CIDR")
    }
}

/// Parse a target string into the host IPs to scan: a single IP, or every address
/// of a CIDR block.
pub fn parse_target(target: &str) -> (r: Result<Vec<u32>, TargetParseError>)
    ensures
        match ipv4_address(target@) {
            Some(ip) => r matches Ok(hosts) && hosts@ == seq![ip],
            None => match cidr_block(target@) {
                Some((first, len)) => r matches Ok(hosts) && hosts@ == block_addresses(
                    first,
                    len,
                ),
                None => r == Err::<Vec<u32>, TargetParseError>(TargetParseError::Unsupported),
            },
        },
{
    if let Some(ip) = parse_ipv4(target) {
        let v = vec![ip];
        assert(v@ =~= seq![ip]);
        return Ok(v);
    }
    match parse_cidr_block(target) {
        Some((first, len)) => Ok(block_addresses_exec(first, len)),
        None => Err(TargetParseError::Unsupported),
    }
}

} // verus!
