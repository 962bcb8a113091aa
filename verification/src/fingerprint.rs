//! Fingerprint inference: turn raw signals (a TTL, a service banner) into
//! structured guesses. Every function here is deterministic and works on plain
//! values only.

use vstd::prelude::*;

use crate::text::{
    chars_of, contains, contains_exec, find, find_exec, has_prefix, is_ascii_digit, lower,
    lowercase, slice_of, split_once, split_once_exec, starts_with, string_of, tokens,
    tokens_exec, trim, trim_exec, trim_punct, trim_punct_exec, views, ascii_digit,
};
use crate::types::{opt_view, Confidence, OsFamily, OsGuess, Service};

verus! {

// ---------------------------------------------------------------------------
// Operating-system guess
// ---------------------------------------------------------------------------

/// Banner substrings (lowercased) that point at a Linux/Unix host.
pub open spec fn linux_hints() -> Seq<Seq<char>> {
    seq![
        "ubuntu"@,
        "debian"@,
        "linux"@,
        "unix"@,
        "centos"@,
        "fedora"@,
        "raspbian"@,
        "freebsd"@,
    ]
}

/// Banner substrings (lowercased) that point at a Windows host.
pub open spec fn windows_hints() -> Seq<Seq<char>> {
    seq!["windows"@, "microsoft"@, "microsoft-iis"@, "win32"@, "win64"@]
}

/// The lowercased banner contains one of the hints.
pub open spec fn mentions_any(banner: Seq<char>, hints: Seq<Seq<char>>) -> bool {
    exists|i: int| 0 <= i < hints.len() && contains(lower(banner), #[trigger] hints[i])
}

/// Some service's banner contains one of the hints.
pub open spec fn any_banner_mentions(services: Seq<Service>, hints: Seq<Seq<char>>) -> bool {
    exists|i: int| 0 <= i < services.len() && mentions_any(#[trigger] services[i].banner@, hints)
}

/// The family a TTL points at, bucketed by the nearest standard starting value at
/// or above it (64, 128, 255), and whether the TTL is exactly that starting value.
pub open spec fn ttl_family(ttl: u8) -> Option<(OsFamily, bool)> {
    if ttl == 0 {
        None
    } else if ttl <= 64 {
        Some((OsFamily::Linux, ttl == 64))
    } else if ttl <= 128 {
        Some((OsFamily::Windows, ttl == 128))
    } else {
        Some((OsFamily::NetworkDevice, ttl == 255))
    }
}

/// The family the banners point at: `None` when no banner has an OS keyword or the
/// banners point at both families.
pub open spec fn services_family(services: Seq<Service>) -> Option<OsFamily> {
    let linux = any_banner_mentions(services, linux_hints());
    let windows = any_banner_mentions(services, windows_hints());
    if linux && !windows {
        Some(OsFamily::Linux)
    } else if windows && !linux {
        Some(OsFamily::Windows)
    } else {
        None
    }
}

/// The OS guess from a TTL and the services' banners: banner and TTL agreeing give
/// high confidence; a banner overrides a disagreeing TTL with medium confidence; a
/// TTL alone gives medium confidence when it is a clean starting value and low
/// otherwise; a banner alone gives medium confidence; no signal gives no guess.
pub open spec fn os_guess(ttl: Option<u8>, services: Seq<Service>) -> Option<OsGuess> {
    let from_ttl = match ttl {
        Some(t) => ttl_family(t),
        None => None,
    };
    match (from_ttl, services_family(services)) {
        (Some((family, _)), Some(banner_family)) => if family == banner_family {
            Some(OsGuess { family, confidence: Confidence::High })
        } else {
            Some(OsGuess { family: banner_family, confidence: Confidence::Medium })
        },
        (Some((family, clean)), None) => Some(
            OsGuess {
                family,
                confidence: if clean {
                    Confidence::Medium
                } else {
                    Confidence::Low
                },
            },
        ),
        (None, Some(banner_family)) => Some(
            OsGuess { family: banner_family, confidence: Confidence::Medium },
        ),
        (None, None) => None,
    }
}

/// Infer a host's OS family from its TTL and any service banners.
///
/// The TTL gives a coarse family (its initial value is decremented once per hop,
/// so we bucket by the nearest standard starting value *above* the observed one).
/// An explicit banner keyword corroborates the TTL — bumping to [`Confidence::High`]
/// when they agree, or overriding a heuristic TTL when they disagree.
pub fn guess_os(ttl: Option<u8>, services: &[Service]) -> (r: Option<OsGuess>)
    ensures
        r == os_guess(ttl, services@),
{
    let from_ttl = match ttl {
        Some(t) => family_from_ttl(t),
        None => None,
    };
    let from_services = family_from_services(services);
    match (from_ttl, from_services) {
        (Some((family, _)), Some(banner_family)) => {
            if family == banner_family {
                Some(OsGuess { family, confidence: Confidence::High })
            } else {
                Some(OsGuess { family: banner_family, confidence: Confidence::Medium })
            }
        },
        (Some((family, clean)), None) => Some(
            OsGuess {
                family,
                confidence: if clean {
                    Confidence::Medium
                } else {
                    Confidence::Low
                },
            },
        ),
        (None, Some(banner_family)) => Some(
            OsGuess { family: banner_family, confidence: Confidence::Medium },
        ),
        (None, None) => None,
    }
}

/// Bucket a TTL into an OS family, returning whether the value is a clean,
/// undecremented baseline (64/128/255). `None` for a TTL of 0.
pub fn family_from_ttl(ttl: u8) -> (r: Option<(OsFamily, bool)>)
    ensures
        r == ttl_family(ttl),
{
    if ttl == 0 {
        None
    } else if ttl <= 64 {
        Some((OsFamily::Linux, ttl == 64))
    } else if ttl <= 128 {
        Some((OsFamily::Windows, ttl == 128))
    } else {
        Some((OsFamily::NetworkDevice, ttl == 255))
    }
}

fn words(list: &[&str]) -> (r: Vec<Vec<char>>)
    ensures
        views(r@) == Seq::new(list@.len(), |i: int| list@[i]@),
{
    let mut out: Vec<Vec<char>> = Vec::new();
    let mut i: usize = 0;
    while i < list.len()
        invariant
            i <= list.len(),
            views(out@) == Seq::new(i as nat, |k: int| list@[k]@),
        decreases list.len() - i,
    {
        let ghost before = views(out@);
        let w = chars_of(list[i]);
        out.push(w);
        proof {
            assert(views(out@) =~= before.push(list@[i as int]@));
            assert(Seq::new((i + 1) as nat, |k: int| list@[k]@) =~= Seq::new(
                i as nat,
                |k: int| list@[k]@,
            ).push(list@[i as int]@));
        }
        i += 1;
    }
    out
}

fn linux_hint_words() -> (r: Vec<Vec<char>>)
    ensures
        views(r@) == linux_hints(),
{
    let list = ["ubuntu", "debian", "linux", "unix", "centos", "fedora", "raspbian", "freebsd"];
    let r = words(&list);
    assert(views(r@) =~= linux_hints());
    r
}

fn windows_hint_words() -> (r: Vec<Vec<char>>)
    ensures
        views(r@) == windows_hints(),
{
    let list = ["windows", "microsoft", "microsoft-iis", "win32", "win64"];
    let r = words(&list);
    assert(views(r@) =~= windows_hints());
    r
}

fn mentions_any_exec(lowered: &[char], hints: &Vec<Vec<char>>) -> (r: bool)
    ensures
        r == exists|i: int| 0 <= i < hints@.len() && contains(lowered@, #[trigger] views(hints@)[i]),
{
    let mut i: usize = 0;
    while i < hints.len()
        invariant
            i <= hints.len(),
            forall|k: int| 0 <= k < i ==> !contains(lowered@, #[trigger] views(hints@)[k]),
        decreases hints.len() - i,
    {
        if contains_exec(lowered, hints[i].as_slice()) {
            assert(contains(lowered@, views(hints@)[i as int]));
            return true;
        }
        i += 1;
    }
    false
}

/// Look for OS keywords across all banners; `None` if there is no signal or the
/// banners point at conflicting families.
pub fn family_from_services(services: &[Service]) -> (r: Option<OsFamily>)
    ensures
        r == services_family(services@),
{
    let linux_words = linux_hint_words();
    let windows_words = windows_hint_words();
    let mut linux = false;
    let mut windows = false;
    let mut i: usize = 0;
    while i < services.len()
        invariant
            i <= services.len(),
            views(linux_words@) == linux_hints(),
            views(windows_words@) == windows_hints(),
            linux == exists|k: int|
                0 <= k < i && mentions_any(#[trigger] services@[k].banner@, linux_hints()),
            windows == exists|k: int|
                0 <= k < i && mentions_any(#[trigger] services@[k].banner@, windows_hints()),
        decreases services.len() - i,
    {
        let banner = chars_of(services[i].banner.as_str());
        let lowered = lowercase(banner.as_slice());
        let l = mentions_any_exec(lowered.as_slice(), &linux_words);
        let w = mentions_any_exec(lowered.as_slice(), &windows_words);
        proof {
            assert(l == mentions_any(services@[i as int].banner@, linux_hints()));
            assert(w == mentions_any(services@[i as int].banner@, windows_hints()));
        }
        linux = linux || l;
        windows = windows || w;
        i += 1;
    }
    if linux && !windows {
        Some(OsFamily::Linux)
    } else if !linux && windows {
        Some(OsFamily::Windows)
    } else {
        None
    }
}

// ---------------------------------------------------------------------------
// Service identification
// ---------------------------------------------------------------------------

/// The protocol conventionally served on a port.
pub open spec fn port_service_name(port: u16) -> Option<Seq<char>> {
    if port == 21 {
        Some("ftp"@)
    } else if port == 22 {
        Some("ssh"@)
    } else if port == 23 {
        Some("telnet"@)
    } else if port == 25 || port == 587 {
        Some("smtp"@)
    } else if port == 80 || port == 8000 || port == 8080 || port == 8888 {
        Some("http"@)
    } else if port == 110 {
        Some("pop3"@)
    } else if port == 143 {
        Some("imap"@)
    } else if port == 443 || port == 8443 {
        Some("https"@)
    } else if port == 631 {
        Some("ipp"@)
    } else {
        None
    }
}

/// The protocol, from the banner's shape first (an SSH identification, an HTTP
/// status line or a `Server:` header) and from the port otherwise.
pub open spec fn service_name_of(port: u16, banner: Seq<char>) -> Option<Seq<char>> {
    if starts_with(banner, "SSH-"@) {
        Some("ssh"@)
    } else if starts_with(banner, "HTTP/"@) || contains(lower(banner), "server:"@) {
        Some("http"@)
    } else {
        port_service_name(port)
    }
}

/// A token without surrounding punctuation, or nothing when no letter or digit is left.
pub open spec fn cleaned(token: Seq<char>) -> Option<Seq<char>> {
    let t = trim_punct(token);
    if t.len() == 0 {
        None
    } else {
        Some(t)
    }
}

/// A `product<sep>version` token split at its first separator; a token without the
/// separator is a product alone.
pub open spec fn product_and_version(token: Seq<char>, sep: char) -> (
    Option<Seq<char>>,
    Option<Seq<char>>,
) {
    match split_once(token, sep) {
        Some((product, version)) => (cleaned(product), cleaned(version)),
        None => (cleaned(token), None),
    }
}

/// `SSH-2.0-OpenSSH_9.6p1 Debian-3` → (`OpenSSH`, `9.6p1`): the first word after
/// the second `-`, split at `_`.
pub open spec fn ssh_product(banner: Seq<char>) -> (Option<Seq<char>>, Option<Seq<char>>) {
    match split_once(banner, '-') {
        None => (None, None),
        Some((_, after_first)) => match split_once(after_first, '-') {
            None => (None, None),
            Some((_, software)) => {
                let words = tokens(software);
                if words.len() == 0 {
                    (None, None)
                } else {
                    product_and_version(words[0], '_')
                }
            },
        },
    }
}

/// The text after the first `Server:` (in any letter case), trimmed.
pub open spec fn server_header(banner: Seq<char>) -> Option<Seq<char>> {
    match find(lower(banner), "server:"@) {
        Some(i) => Some(trim(banner.subrange(i + "server:"@.len(), banner.len() as int))),
        None => None,
    }
}

/// `nginx/1.25.3 (Ubuntu)` → (`nginx`, `1.25.3`): the first word, split at `/`.
pub open spec fn slash_product(value: Seq<char>) -> (Option<Seq<char>>, Option<Seq<char>>) {
    let words = tokens(value);
    if words.len() == 0 {
        (None, None)
    } else {
        product_and_version(words[0], '/')
    }
}

/// A word that starts with a digit and contains a dot, e.g. `1.3.5`, `9.6p1`.
pub open spec fn version_like(word: Seq<char>) -> bool {
    word.len() > 0 && is_ascii_digit(word[0]) && contains(word, seq!['.'])
}

/// The first position at or after `i` holding a version-like word.
pub open spec fn version_position(words: Seq<Seq<char>>, i: int) -> Option<int>
    decreases words.len() - i,
{
    if i < 0 || i >= words.len() {
        None
    } else if version_like(words[i]) {
        Some(i)
    } else {
        version_position(words, i + 1)
    }
}

/// Generic greeting (FTP/SMTP/POP3/IMAP): the first version-like word that has a
/// word before it, with that word as the product.
pub open spec fn greeting_product(banner: Seq<char>) -> (Option<Seq<char>>, Option<Seq<char>>) {
    let words = tokens(banner);
    match version_position(words, 1) {
        Some(i) => (cleaned(words[i - 1]), cleaned(words[i])),
        None => (None, None),
    }
}

/// Product and version recovered from a banner, by its shape: an SSH
/// identification, a `Server:` header, or a generic greeting.
pub open spec fn banner_product(banner: Seq<char>) -> (Option<Seq<char>>, Option<Seq<char>>) {
    if starts_with(banner, "SSH-"@) {
        ssh_product(banner)
    } else {
        match server_header(banner) {
            Some(rest) => slash_product(rest),
            None => greeting_product(banner),
        }
    }
}

/// Product and version → high, product only → medium, nothing → low.
pub open spec fn confidence_of(product: Option<Seq<char>>, version: Option<Seq<char>>) -> Confidence {
    match (product, version) {
        (Some(_), Some(_)) => Confidence::High,
        (Some(_), None) => Confidence::Medium,
        _ => Confidence::Low,
    }
}

impl Service {
    /// This service is what parsing `banner` found on `port`.
    pub open spec fn parsed_from(&self, port: u16, banner: Seq<char>) -> bool {
        let (product, version) = banner_product(banner);
        &&& self.port == port
        &&& self.banner@ == banner
        &&& opt_view(self.name) == service_name_of(port, banner)
        &&& opt_view(self.product) == product
        &&& opt_view(self.version) == version
        &&& self.confidence == confidence_of(product, version)
    }
}

/// Parse a raw banner into a structured [`Service`], keeping the raw text.
///
/// Confidence reflects how much was recovered: product **and** version →
/// [`Confidence::High`], product only → [`Confidence::Medium`], nothing →
/// [`Confidence::Low`].
pub fn parse_service(port: u16, banner: &str) -> (r: Service)
    ensures
        r.parsed_from(port, banner@),
{
    let text = chars_of(banner);
    let name = service_name(port, text.as_slice());
    let (product, version) = parse_product_version(text.as_slice());
    let confidence = match (&product, &version) {
        (Some(_), Some(_)) => Confidence::High,
        (Some(_), None) => Confidence::Medium,
        _ => Confidence::Low,
    };
    let product = match product {
        Some(p) => Some(string_of(p.as_slice())),
        None => None,
    };
    let version = match version {
        Some(v) => Some(string_of(v.as_slice())),
        None => None,
    };
    Service { port, name, product, version, banner: string_of(text.as_slice()), confidence }
}

fn port_name(port: u16) -> (r: Option<String>)
    ensures
        opt_view(r) == port_service_name(port),
{
    let name = match port {
        21 => "ftp",
        22 => "ssh",
        23 => "telnet",
        25 | 587 => "smtp",
        80 | 8000 | 8080 | 8888 => "http",
        110 => "pop3",
        143 => "imap",
        443 | 8443 => "https",
        631 => "ipp",
        _ => return None,
    };
    Some(String::from_str(name))
}

/// Identify the protocol from the banner shape first, then fall back to the port.
pub fn service_name(port: u16, banner: &[char]) -> (r: Option<String>)
    ensures
        opt_view(r) == service_name_of(port, banner@),
{
    let ssh = chars_of("SSH-");
    if has_prefix(banner, ssh.as_slice()) {
        return Some(String::from_str("ssh"));
    }
    let http = chars_of("HTTP/");
    let server = chars_of("server:");
    let lowered = lowercase(banner);
    if has_prefix(banner, http.as_slice()) || contains_exec(lowered.as_slice(), server.as_slice()) {
        return Some(String::from_str("http"));
    }
    port_name(port)
}

/// Extract a product and version from a banner, dispatching on its shape.
pub fn parse_product_version(banner: &[char]) -> (r: (Option<Vec<char>>, Option<Vec<char>>))
    ensures
        (opt_chars(r.0), opt_chars(r.1)) == banner_product(banner@),
{
    let ssh = chars_of("SSH-");
    if has_prefix(banner, ssh.as_slice()) {
        parse_ssh(banner)
    } else {
        match server_header_value(banner) {
            Some(rest) => parse_slash_token(rest.as_slice()),
            None => parse_greeting(banner),
        }
    }
}

/// The characters an optional character vector holds, if any.
pub open spec fn opt_chars(o: Option<Vec<char>>) -> Option<Seq<char>> {
    match o {
        Some(v) => Some(v@),
        None => None,
    }
}

fn split_product(token: &[char], sep: char) -> (r: (Option<Vec<char>>, Option<Vec<char>>))
    ensures
        (opt_chars(r.0), opt_chars(r.1)) == product_and_version(token@, sep),
{
    match split_once_exec(token, sep) {
        Some((product, version)) => (clean(product.as_slice()), clean(version.as_slice())),
        None => (clean(token), None),
    }
}

/// `SSH-2.0-OpenSSH_9.6p1 Debian-3` → (`OpenSSH`, `9.6p1`).
pub fn parse_ssh(banner: &[char]) -> (r: (Option<Vec<char>>, Option<Vec<char>>))
    ensures
        (opt_chars(r.0), opt_chars(r.1)) == ssh_product(banner@),
{
    let after_first = match split_once_exec(banner, '-') {
        Some((_, rest)) => rest,
        None => return (None, None),
    };
    let software = match split_once_exec(after_first.as_slice(), '-') {
        Some((_, rest)) => rest,
        None => return (None, None),
    };
    let words = tokens_exec(software.as_slice());
    if words.len() == 0 {
        return (None, None);
    }
    proof {
        assert(views(words@)[0] == words@[0]@);
    }
    split_product(words[0].as_slice(), '_')
}

/// The text following a `Server:` header, if present (case-insensitive).
pub fn server_header_value(banner: &[char]) -> (r: Option<Vec<char>>)
    ensures
        opt_chars(r) == server_header(banner@),
{
    let server = chars_of("server:");
    let lowered = lowercase(banner);
    match find_exec(lowered.as_slice(), server.as_slice()) {
        Some(idx) => {
            let rest = slice_of(banner, idx + server.len(), banner.len());
            Some(trim_exec(rest.as_slice()))
        },
        None => None,
    }
}

/// `nginx/1.25.3 (Ubuntu)` → (`nginx`, `1.25.3`).
pub fn parse_slash_token(value: &[char]) -> (r: (Option<Vec<char>>, Option<Vec<char>>))
    ensures
        (opt_chars(r.0), opt_chars(r.1)) == slash_product(value@),
{
    let words = tokens_exec(value);
    if words.len() == 0 {
        return (None, None);
    }
    proof {
        assert(views(words@)[0] == words@[0]@);
    }
    split_product(words[0].as_slice(), '/')
}

/// Generic greeting parse (FTP/SMTP/POP3/IMAP): find the first version-looking
/// token and take the word before it as the product.
pub fn parse_greeting(banner: &[char]) -> (r: (Option<Vec<char>>, Option<Vec<char>>))
    ensures
        (opt_chars(r.0), opt_chars(r.1)) == greeting_product(banner@),
{
    let words = tokens_exec(banner);
    let ghost ws = views(words@);
    let mut i: usize = 1;
    while i < words.len()
        invariant
            1 <= i,
            ws == views(words@),
            ws == tokens(banner@),
            version_position(ws, 1) == version_position(ws, i as int),
        decreases words.len() - i,
    {
        proof {
            assert(ws[i as int] == words@[i as int]@);
            assert(ws[i - 1] == words@[i - 1]@);
        }
        if looks_like_version(words[i].as_slice()) {
            let product = clean(words[i - 1].as_slice());
            let version = clean(words[i].as_slice());
            proof {
                assert(version_position(ws, i as int) == Some(i as int));
                assert(tokens(banner@) == ws);
            }
            return (product, version);
        }
        i += 1;
    }
    (None, None)
}

/// A token that starts with a digit and contains a dot, e.g. `1.3.5`, `9.6p1`.
/// The leading-digit rule avoids matching hostnames like `host2.example.com`.
pub fn looks_like_version(token: &[char]) -> (r: bool)
    ensures
        r == version_like(token@),
{
    let dot = vec!['.'];
    proof {
        assert(dot@ =~= seq!['.']);
    }
    token.len() > 0 && ascii_digit(token[0]) && contains_exec(token, dot.as_slice())
}

/// Trim surrounding punctuation and drop the token if nothing usable remains.
pub fn clean(token: &[char]) -> (r: Option<Vec<char>>)
    ensures
        opt_chars(r) == cleaned(token@),
{
    let trimmed = trim_punct_exec(token);
    if trimmed.len() == 0 {
        None
    } else {
        Some(trimmed)
    }
}

} // verus!
