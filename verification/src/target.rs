//! The server and the file that a download URI names, and the request for them.

use vstd::prelude::*;
use vstd::slice::{slice_subrange, slice_to_vec};
use vstd::string::StringSliceAdditionalSpecFns;
use vstd::utf8::{is_ascii_chars_encode_utf8, valid_utf8};

use crate::bytes::{parts_of_joined_text, split_once, split_once_absent, split_once_joined};
use crate::bytes::{split_once_spec, split_spec};
use crate::uri::{stored_uri, stored_uri_is_the_text_before_its_end, stored_uri_spec};
use crate::uri::{stored_uri_stands_in_front, DEFAULT_PORT};

verus! {

/// A decimal digit.
pub open spec fn is_digit(b: u8) -> bool {
    0x30 <= b <= 0x39
}

/// The number that digits spell.
pub open spec fn digits_value(d: Seq<u8>) -> int
    decreases d.len(),
{
    if d.len() == 0 {
        0
    } else {
        10 * digits_value(d.drop_last()) + (d.last() - 0x30)
    }
}

/// A number as it may be written: without the plus sign that may stand in front.
pub open spec fn unsigned_part(s: Seq<u8>) -> Seq<u8> {
    if s.len() > 0 && s[0] == 0x2b {
        s.skip(1)
    } else {
        s
    }
}

/// The number that the text spells, where it spells one that is at most `max`: one digit
/// or more, with or without a plus sign in front.
pub open spec fn decimal(s: Seq<u8>, max: int) -> Option<int> {
    let d = unsigned_part(s);
    if d.len() > 0 && (forall|i: int| 0 <= i < d.len() ==> is_digit(#[trigger] d[i]))
        && digits_value(d) <= max {
        Some(digits_value(d))
    } else {
        None
    }
}

proof fn digits_value_grows(d: Seq<u8>, k: int)
    requires
        0 <= k <= d.len(),
        forall|i: int| 0 <= i < d.len() ==> is_digit(#[trigger] d[i]),
    ensures
        0 <= digits_value(d.take(k)) <= digits_value(d),
    decreases d.len(),
{
    if k == d.len() {
        assert(d.take(k) =~= d);
        if d.len() > 0 {
            digits_value_grows(d.drop_last(), k - 1);
        }
    } else {
        digits_value_grows(d.drop_last(), k);
        assert(d.drop_last().take(k) =~= d.take(k));
    }
}

/// Reads a number that is at most `max`.
pub fn parse_decimal(s: &[u8], max: u16) -> (r: Option<u16>)
    ensures
        match r {
            Some(n) => decimal(s@, max as int) == Some(n as int),
            None => decimal(s@, max as int) is None,
        },
{
    let d: &[u8] = if s.len() > 0 && s[0] == 0x2b {
        slice_subrange(s, 1, s.len())
    } else {
        s
    };
    assert(d@ =~= unsigned_part(s@));
    if d.len() == 0 {
        return None;
    }
    let mut n: u32 = 0;
    let mut i: usize = 0;
    while i < d.len()
        invariant
            i <= d@.len(),
            d@ == unsigned_part(s@),
            n <= max <= u16::MAX,
            n == digits_value(d@.take(i as int)),
            forall|j: int| 0 <= j < i ==> is_digit(#[trigger] d@[j]),
        decreases d@.len() - i,
    {
        let b: u8 = d[i];
        if b < 0x30 || b > 0x39 {
            assert(!is_digit(d@[i as int]));
            return None;
        }
        n = n * 10 + (b - 0x30) as u32;
        proof {
            assert(d@.take(i + 1).drop_last() =~= d@.take(i as int));
            assert(d@.take(i + 1).last() == b);
            if forall|j: int| 0 <= j < d@.len() ==> is_digit(#[trigger] d@[j]) {
                digits_value_grows(d@, i + 1);
            }
        }
        i = i + 1;
        if n > max as u32 {
            return None;
        }
    }
    assert(d@.take(d@.len() as int) =~= d@);
    Some(n as u16)
}

/// The number of one part of an address; 0 where it is none.
pub open spec fn octet_spec(part: Seq<u8>) -> u8 {
    match decimal(part, 255) {
        Some(n) => n as u8,
        None => 0,
    }
}

fn octet(part: &[u8]) -> (n: u8)
    ensures
        n == octet_spec(part@),
{
    match parse_decimal(part, 255) {
        Some(n) => n as u8,
        None => 0,
    }
}

/// The number of a port; the default port where it is none.
pub open spec fn port_spec(text: Seq<u8>) -> u16 {
    match decimal(text, 0xffff) {
        Some(n) => n as u16,
        None => DEFAULT_PORT,
    }
}

fn port(text: &[u8]) -> (n: u16)
    ensures
        n == port_spec(text@),
{
    match parse_decimal(text, 0xffff) {
        Some(n) => n,
        None => DEFAULT_PORT,
    }
}

/// What a download URI names.
#[verifier::ext_equal]
pub struct TargetView {
    pub octets: Seq<u8>,
    pub port: u16,
    pub host: Seq<u8>,
    pub path: Seq<u8>,
}

/// The server and the file that a download URI names.
#[derive(Debug)]
pub struct Target {
    /// The address of the server.
    pub octets: [u8; 4],
    /// The port of the server.
    pub port: u16,
    /// The address as it was written.
    pub host: Vec<u8>,
    /// The file, without the slash in front.
    pub path: Vec<u8>,
}

impl View for Target {
    type V = TargetView;

    open spec fn view(&self) -> TargetView {
        TargetView {
            octets: self.octets@,
            port: self.port,
            host: self.host@,
            path: self.path@,
        }
    }
}

/// What a URI `host:port/path` or `host/path` names. The host is an address of four parts
/// with a dot between them; parts beyond the fourth are ignored.
pub open spec fn target_spec(uri: Seq<u8>) -> Option<TargetView> {
    match split_once_spec(uri, 0x2f) {
        Some((server, path)) => {
            let (host, port) = match split_once_spec(server, 0x3a) {
                Some((host, text)) => (host, port_spec(text)),
                None => (server, DEFAULT_PORT),
            };
            let parts = split_spec(host, 0x2e);
            if parts.len() >= 4 {
                Some(
                    TargetView {
                        octets: parts.take(4).map_values(|p: Seq<u8>| octet_spec(p)),
                        port,
                        host,
                        path,
                    },
                )
            } else {
                None
            }
        },
        None => None,
    }
}

/// The numbers of the first four parts of an address, where it has that many.
fn address(host: &[u8]) -> (r: Option<[u8; 4]>)
    ensures
        match r {
            Some(octets) => {
                &&& split_spec(host@, 0x2e).len() >= 4
                &&& octets@ == split_spec(host@, 0x2e).take(4).map_values(
                    |p: Seq<u8>| octet_spec(p),
                )
            },
            None => split_spec(host@, 0x2e).len() < 4,
        },
{
    proof {
        reveal_with_fuel(split_spec, 5);
    }
    let ghost parts = split_spec(host@, 0x2e);
    match split_once(host, 0x2e) {
        Some((p1, r1)) => match split_once(r1, 0x2e) {
            Some((p2, r2)) => match split_once(r2, 0x2e) {
                Some((p3, r3)) => {
                    let p4: &[u8] = match split_once(r3, 0x2e) {
                        Some((p4, _)) => p4,
                        None => r3,
                    };
                    assert(parts.len() >= 4);
                    assert(parts[0] == p1@ && parts[1] == p2@ && parts[2] == p3@ && parts[3] == p4@);
                    let octets: [u8; 4] = [octet(p1), octet(p2), octet(p3), octet(p4)];
                    assert(octets@ =~= parts.take(4).map_values(|p: Seq<u8>| octet_spec(p)));
                    Some(octets)
                },
                None => None,
            },
            None => None,
        },
        None => None,
    }
}

/// Reads a download URI.
pub fn parse_target(uri: &[u8]) -> (r: Option<Target>)
    ensures
        match r {
            Some(t) => target_spec(uri@) == Some(t@),
            None => target_spec(uri@) is None,
        },
{
    match split_once(uri, 0x2f) {
        Some((server, path)) => {
            let (host, port): (&[u8], u16) = match split_once(server, 0x3a) {
                Some((host, text)) => (host, port(text)),
                None => (server, DEFAULT_PORT),
            };
            match address(host) {
                Some(octets) => Some(
                    Target { octets, port, host: slice_to_vec(host), path: slice_to_vec(path) },
                ),
                None => None,
            }
        },
        None => None,
    }
}

/// From where an image is to be fetched: what the stored URI names, where one is stored and
/// names something.
pub open spec fn boot_target_spec(config: Seq<u8>) -> Option<TargetView> {
    match stored_uri_spec(config) {
        Some(uri) => target_spec(uri),
        None => None,
    }
}

/// Finds out from where an image is to be fetched.
pub fn boot_target(config: &[u8]) -> (r: Option<Target>)
    ensures
        match r {
            Some(t) => boot_target_spec(config@) == Some(t@),
            None => boot_target_spec(config@) is None,
        },
{
    match stored_uri(config) {
        Some(uri) => parse_target(uri.as_slice()),
        None => None,
    }
}

/// The bytes of the request for a file from a host.
pub open spec fn request_spec(host: Seq<u8>, path: Seq<u8>) -> Seq<u8> {
    "GET /".spec_bytes() + path + " HTTP/1.1\r\nHost: ".spec_bytes() + host
        + "\r\nConnection: close\r\n\r\n".spec_bytes()
}

fn append(out: &mut Vec<u8>, more: &[u8])
    ensures
        final(out)@ == old(out)@ + more@,
{
    let ghost before = out@;
    out.extend_from_slice(more);
    assert(out@ =~= before + more@);
}

/// Writes the request for the file of a target.
pub fn request(target: &Target) -> (r: Vec<u8>)
    ensures
        r@ == request_spec(target.host@, target.path@),
{
    let mut out: Vec<u8> = Vec::new();
    append(&mut out, "GET /".as_bytes());
    append(&mut out, target.path.as_slice());
    append(&mut out, " HTTP/1.1\r\nHost: ".as_bytes());
    append(&mut out, target.host.as_slice());
    append(&mut out, "\r\nConnection: close\r\n\r\n".as_bytes());
    assert(out@ =~= request_spec(target.host@, target.path@));
    out
}

/// The address that four parts make.
pub open spec fn dotted(p1: Seq<u8>, p2: Seq<u8>, p3: Seq<u8>, p4: Seq<u8>) -> Seq<u8> {
    p1.push(0x2e) + (p2.push(0x2e) + (p3.push(0x2e) + p4))
}

/// The text of a part of a server's name: none of the signs that take a URI apart.
pub open spec fn plain_part(p: Seq<u8>) -> bool {
    !p.contains(0x2e) && !p.contains(0x3a) && !p.contains(0x2f)
}

proof fn dotted_parts(p1: Seq<u8>, p2: Seq<u8>, p3: Seq<u8>, p4: Seq<u8>)
    requires
        plain_part(p1),
        plain_part(p2),
        plain_part(p3),
        plain_part(p4),
    ensures
        split_spec(dotted(p1, p2, p3, p4), 0x2e) == seq![p1, p2, p3, p4],
        !dotted(p1, p2, p3, p4).contains(0x3a),
        !dotted(p1, p2, p3, p4).contains(0x2f),
{
    reveal_with_fuel(split_spec, 5);
    split_once_absent(p4, 0x2e);
    split_once_joined(p3, 0x2e, p4);
    split_once_joined(p2, 0x2e, p3.push(0x2e) + p4);
    split_once_joined(p1, 0x2e, p2.push(0x2e) + (p3.push(0x2e) + p4));
    assert(split_spec(dotted(p1, p2, p3, p4), 0x2e) =~= seq![p1, p2, p3, p4]);
    let host = dotted(p1, p2, p3, p4);
    assert forall|sep: u8| sep == 0x3a || sep == 0x2f implies !host.contains(sep) by {
        if host.contains(sep) {
            let i = choose|i: int| 0 <= i < host.len() && host[i] == sep;
            let n1 = p1.len() + 1;
            let n2 = n1 + p2.len() + 1;
            let n3 = n2 + p3.len() + 1;
            if i < n1 {
                assert(i < p1.len() ==> p1.contains(p1[i]));
            } else if i < n2 {
                assert(i - n1 < p2.len() ==> p2.contains(p2[i - n1]));
            } else if i < n3 {
                assert(i - n2 < p3.len() ==> p3.contains(p3[i - n2]));
            } else {
                assert(host[i] == p4[i - n3]);
                assert(p4.contains(p4[i - n3]));
            }
        }
    }
}

/// A URI that was put together from an address, a port and a path names that address, that
/// port and that path, whatever the path is.
pub proof fn target_of_uri_with_port(
    p1: Seq<u8>,
    p2: Seq<u8>,
    p3: Seq<u8>,
    p4: Seq<u8>,
    port: Seq<u8>,
    path: Seq<u8>,
)
    requires
        plain_part(p1),
        plain_part(p2),
        plain_part(p3),
        plain_part(p4),
        !port.contains(0x2f),
    ensures
        target_spec((dotted(p1, p2, p3, p4).push(0x3a) + port).push(0x2f) + path) == Some(
            TargetView {
                octets: seq![octet_spec(p1), octet_spec(p2), octet_spec(p3), octet_spec(p4)],
                port: port_spec(port),
                host: dotted(p1, p2, p3, p4),
                path,
            },
        ),
{
    let host = dotted(p1, p2, p3, p4);
    dotted_parts(p1, p2, p3, p4);
    let server = host.push(0x3a) + port;
    assert(!server.contains(0x2f)) by {
        if server.contains(0x2f) {
            let i = choose|i: int| 0 <= i < server.len() && server[i] == 0x2f;
            if i < host.len() {
                assert(host.contains(host[i]));
            } else if i > host.len() {
                assert(server[i] == port[i - host.len() - 1]);
                assert(port.contains(port[i - host.len() - 1]));
            }
        }
    }
    split_once_joined(server, 0x2f, path);
    split_once_joined(host, 0x3a, port);
    let parts = seq![p1, p2, p3, p4];
    assert(parts.take(4).map_values(|p: Seq<u8>| octet_spec(p)) =~= seq![
        octet_spec(p1),
        octet_spec(p2),
        octet_spec(p3),
        octet_spec(p4),
    ]);
}

/// A URI without a port names the default port.
pub proof fn target_of_uri_without_port(
    p1: Seq<u8>,
    p2: Seq<u8>,
    p3: Seq<u8>,
    p4: Seq<u8>,
    path: Seq<u8>,
)
    requires
        plain_part(p1),
        plain_part(p2),
        plain_part(p3),
        plain_part(p4),
    ensures
        target_spec(dotted(p1, p2, p3, p4).push(0x2f) + path) == Some(
            TargetView {
                octets: seq![octet_spec(p1), octet_spec(p2), octet_spec(p3), octet_spec(p4)],
                port: DEFAULT_PORT,
                host: dotted(p1, p2, p3, p4),
                path,
            },
        ),
{
    let host = dotted(p1, p2, p3, p4);
    dotted_parts(p1, p2, p3, p4);
    split_once_joined(host, 0x2f, path);
    split_once_absent(host, 0x3a);
    let parts = seq![p1, p2, p3, p4];
    assert(parts.take(4).map_values(|p: Seq<u8>| octet_spec(p)) =~= seq![
        octet_spec(p1),
        octet_spec(p2),
        octet_spec(p3),
        octet_spec(p4),
    ]);
}

/// The digits of a number, as many as it takes.
pub open spec fn digits_of(n: nat) -> Seq<u8>
    decreases n,
{
    if n < 10 {
        seq![(0x30 + n) as u8]
    } else {
        digits_of(n / 10).push((0x30 + n % 10) as u8)
    }
}

proof fn digits_of_are_digits(n: nat)
    ensures
        digits_of(n).len() > 0,
        forall|i: int| 0 <= i < digits_of(n).len() ==> is_digit(#[trigger] digits_of(n)[i]),
        digits_value(digits_of(n)) == n,
    decreases n,
{
    if n < 10 {
        reveal_with_fuel(digits_value, 2);
    } else {
        digits_of_are_digits(n / 10);
        assert(digits_of(n).drop_last() =~= digits_of(n / 10));
    }
}

/// A number up to the limit, written in digits, is read back as that number, with and
/// without a plus sign in front; one above the limit is not read.
pub proof fn decimal_reads_digits(n: nat, max: int)
    ensures
        decimal(digits_of(n), max) == (if n <= max {
            Some(n as int)
        } else {
            None
        }),
        decimal(seq![0x2bu8] + digits_of(n), max) == decimal(digits_of(n), max),
{
    let d = digits_of(n);
    digits_of_are_digits(n);
    assert(is_digit(d[0]));
    assert(unsigned_part(d) == d);
    assert(unsigned_part(seq![0x2bu8] + d) =~= d);
}

/// How a number is read, by its last character: a digit behind a number counts ten times what
/// stands before it, as long as the limit is kept; any other character spoils it. One plus sign
/// may stand in front of the digits, but there must be a digit.
pub proof fn numbers_are_read_digit_by_digit(s: Seq<u8>, last: u8, max: int)
    requires
        0 <= max,
    ensures
        decimal(Seq::empty(), max) is None,
        !('0' as u8 <= last <= '9' as u8) ==> decimal(s.push(last), max) is None,
        '0' as u8 <= last <= '9' as u8 ==> {
            let digit = last - '0' as u8;
            decimal(s.push(last), max) == (if s == Seq::<u8>::empty() || s == seq!['+' as u8] {
                if digit <= max {
                    Some(digit)
                } else {
                    None
                }
            } else {
                match decimal(s, max) {
                    Some(n) => if 10 * n + digit <= max {
                        Some(10 * n + digit)
                    } else {
                        None
                    },
                    None => None,
                }
            })
        },
{
    let t = s.push(last);
    let d = unsigned_part(t);
    if s.len() > 0 {
        let c = unsigned_part(s);
        assert(d =~= c.push(last));
        assert(d.drop_last() =~= c);
        if c.len() == 0 {
            assert(s =~= seq!['+' as u8]);
            reveal_with_fuel(digits_value, 2);
        }
        assert(d[d.len() - 1] == last);
        if is_digit(last) {
            if forall|i: int| 0 <= i < c.len() ==> is_digit(#[trigger] c[i]) {
                assert(forall|i: int| 0 <= i < d.len() ==> is_digit(#[trigger] d[i]));
                digits_value_grows(c, 0);
            } else {
                let i = choose|i: int| 0 <= i < c.len() && !is_digit(#[trigger] c[i]);
                assert(!is_digit(d[i]));
            }
        }
    } else {
        assert(s =~= Seq::<u8>::empty());
        reveal_with_fuel(digits_value, 2);
        if last == 0x2b {
            assert(d.len() == 0);
        } else {
            assert(d =~= seq![last]);
            assert(d[0] == last);
            assert(d.drop_last().len() == 0);
        }
    }
}

proof fn four_parts(p1: Seq<u8>, p2: Seq<u8>, p3: Seq<u8>, p4: Seq<u8>, fifth: Option<Seq<u8>>)
    requires
        plain_part(p1),
        plain_part(p2),
        plain_part(p3),
        plain_part(p4),
        fifth matches Some(f) ==> !f.contains(0x3a) && !f.contains(0x2f),
    ensures
        ({
            let dot = seq![0x2eu8];
            let more = match fifth {
                Some(f) => dot + f,
                None => Seq::empty(),
            };
            let host = p1 + dot + p2 + dot + p3 + dot + p4 + more;
            &&& split_spec(host, 0x2e).len() >= 4
            &&& split_spec(host, 0x2e).take(4) == seq![p1, p2, p3, p4]
            &&& !host.contains(0x3a) && !host.contains(0x2f)
        }),
{
    let dot = seq![0x2eu8];
    let more = match fifth {
        Some(f) => dot + f,
        None => Seq::empty(),
    };
    let host = p1 + dot + p2 + dot + p3 + dot + p4 + more;
    let r3 = p4 + more;
    let r2 = p3 + dot + r3;
    let r1 = p2 + dot + r2;
    assert(host =~= p1 + dot + r1);
    parts_of_joined_text(p1, 0x2e, r1);
    parts_of_joined_text(p2, 0x2e, r2);
    parts_of_joined_text(p3, 0x2e, r3);
    match fifth {
        Some(f) => {
            assert(r3 =~= p4 + dot + f);
            parts_of_joined_text(p4, 0x2e, f);
        },
        None => {
            assert(r3 =~= p4);
            parts_of_joined_text(p4, 0x2e, Seq::empty());
        },
    }
    assert(split_spec(host, 0x2e).take(4) =~= seq![p1, p2, p3, p4]);
    assert forall|sep: u8| sep == 0x3a || sep == 0x2f implies !host.contains(sep) by {
        lacks(p1, dot, sep);
        lacks(p1 + dot, p2, sep);
        lacks(p1 + dot + p2, dot, sep);
        lacks(p1 + dot + p2 + dot, p3, sep);
        lacks(p1 + dot + p2 + dot + p3, dot, sep);
        lacks(p1 + dot + p2 + dot + p3 + dot, p4, sep);
        if let Some(f) = fifth {
            lacks(dot, f, sep);
        }
        lacks(p1 + dot + p2 + dot + p3 + dot + p4, more, sep);
    }
}

proof fn lacks(a: Seq<u8>, b: Seq<u8>, sep: u8)
    requires
        !a.contains(sep),
        !b.contains(sep),
    ensures
        !(a + b).contains(sep),
{
    let s = a + b;
    if s.contains(sep) {
        let i = choose|i: int| 0 <= i < s.len() && s[i] == sep;
        if i < a.len() {
            assert(a[i] == sep);
        } else {
            assert(b[i - a.len()] == sep);
        }
    }
}

/// The server and the path of a URI are told apart, and the host and the port of the server.
proof fn uri_splits(host: Seq<u8>, port: Option<Seq<u8>>, path: Seq<u8>)
    requires
        !host.contains(0x3a),
        !host.contains(0x2f),
        port matches Some(text) ==> !text.contains(0x2f),
    ensures
        ({
            let server = match port {
                Some(text) => host + seq![0x3au8] + text,
                None => host,
            };
            &&& split_once_spec(server + seq![0x2fu8] + path, 0x2f) == Some((server, path))
            &&& split_once_spec(server, 0x3a) == (match port {
                Some(text) => Some((host, text)),
                None => None,
            })
        }),
{
    let server = match port {
        Some(text) => host + seq![0x3au8] + text,
        None => host,
    };
    match port {
        Some(text) => {
            lacks(host, seq![0x3au8], 0x2f);
            lacks(host + seq![0x3au8], text, 0x2f);
            split_once_joined(host, 0x3a, text);
            assert(server =~= host.push(0x3a) + text);
        },
        None => {
            split_once_absent(host, 0x3a);
        },
    }
    split_once_joined(server, 0x2f, path);
    assert(server + seq![0x2fu8] + path =~= server.push(0x2f) + path);
}

/// What a URI `p1.p2.p3.p4:port/path` names, with or without a port, and with or without more
/// behind a fourth dot: the host as it is written, the path behind the first slash, the numbers
/// of the four parts, 0 for a part that is no number up to 255, and the number of the port, 80
/// where there is none or it is no number up to 65535.
pub proof fn uri_names_its_parts(
    p1: Seq<u8>,
    p2: Seq<u8>,
    p3: Seq<u8>,
    p4: Seq<u8>,
    fifth: Option<Seq<u8>>,
    port: Option<Seq<u8>>,
    path: Seq<u8>,
)
    requires
        forall|p: Seq<u8>|
            #![trigger p.len()]
            p == p1 || p == p2 || p == p3 || p == p4 ==> !p.contains('.' as u8) && !p.contains(
                ':' as u8,
            ) && !p.contains('/' as u8),
        fifth matches Some(f) ==> !f.contains(':' as u8) && !f.contains('/' as u8),
        port matches Some(text) ==> !text.contains('/' as u8),
    ensures
        ({
            let dot = seq!['.' as u8];
            let host = p1 + dot + p2 + dot + p3 + dot + p4 + (match fifth {
                Some(f) => dot + f,
                None => Seq::empty(),
            });
            let server = match port {
                Some(text) => host + seq![':' as u8] + text,
                None => host,
            };
            let number = |p: Seq<u8>|
                match decimal(p, 255) {
                    Some(n) => n,
                    None => 0,
                };
            &&& target_spec(server + seq!['/' as u8] + path) matches Some(t)
            &&& t.host == host
            &&& t.path == path
            &&& t.octets.len() == 4
            &&& t.octets[0] == number(p1)
            &&& t.octets[1] == number(p2)
            &&& t.octets[2] == number(p3)
            &&& t.octets[3] == number(p4)
            &&& t.port == (match port {
                Some(text) => match decimal(text, 65535) {
                    Some(n) => n,
                    None => 80,
                },
                None => 80,
            })
        }),
{
    assert(p1.len() >= 0 && p2.len() >= 0 && p3.len() >= 0 && p4.len() >= 0);
    let dot = seq![0x2eu8];
    let host = p1 + dot + p2 + dot + p3 + dot + p4 + (match fifth {
        Some(f) => dot + f,
        None => Seq::empty(),
    });
    four_parts(p1, p2, p3, p4, fifth);
    uri_splits(host, port, path);
    decimal_is_within(p1, 255);
    decimal_is_within(p2, 255);
    decimal_is_within(p3, 255);
    decimal_is_within(p4, 255);
    if let Some(text) = port {
        decimal_is_within(text, 65535);
    }
}

proof fn decimal_is_within(s: Seq<u8>, max: int)
    ensures
        decimal(s, max) matches Some(n) ==> 0 <= n <= max,
{
    if decimal(s, max) is Some {
        digits_value_grows(unsigned_part(s), 0);
    }
}

/// A URI without a slash names nothing, nor does one with fewer than three dots in its host.
pub proof fn uri_without_slash_or_address_names_nothing(
    p1: Seq<u8>,
    p2: Seq<u8>,
    p3: Seq<u8>,
    port: Option<Seq<u8>>,
    path: Seq<u8>,
)
    requires
        forall|p: Seq<u8>|
            #![trigger p.len()]
            p == p1 || p == p2 || p == p3 ==> !p.contains('.' as u8) && !p.contains(':' as u8)
                && !p.contains('/' as u8),
        port matches Some(text) ==> !text.contains('/' as u8),
    ensures
        ({
            let dot = seq!['.' as u8];
            let uri = |host: Seq<u8>|
                (match port {
                    Some(text) => host + seq![':' as u8] + text,
                    None => host,
                }) + seq!['/' as u8] + path;
            &&& target_spec(uri(p1)) is None
            &&& target_spec(uri(p1 + dot + p2)) is None
            &&& target_spec(uri(p1 + dot + p2 + dot + p3)) is None
        }),
        forall|text: Seq<u8>| !text.contains('/' as u8) ==> (#[trigger] target_spec(text)) is None,
{
    assert(p1.len() >= 0 && p2.len() >= 0 && p3.len() >= 0);
    let dot = seq![0x2eu8];
    assert(p1 + dot + p2 + dot + p3 =~= p1 + dot + (p2 + dot + p3));
    parts_of_joined_text(p1, 0x2e, p2);
    parts_of_joined_text(p1, 0x2e, p2 + dot + p3);
    parts_of_joined_text(p2, 0x2e, p3);
    parts_of_joined_text(p3, 0x2e, p3);
    assert forall|sep: u8| sep == 0x3a || sep == 0x2f implies !(p1 + dot + p2).contains(sep) && !(p1
        + dot + p2 + dot + p3).contains(sep) by {
        lacks(p1, dot, sep);
        lacks(p1 + dot, p2, sep);
        lacks(p1 + dot + p2, dot, sep);
        lacks(p1 + dot + p2 + dot, p3, sep);
    }
    uri_splits(p1, port, path);
    uri_splits(p1 + dot + p2, port, path);
    uri_splits(p1 + dot + p2 + dot + p3, port, path);
    assert forall|text: Seq<u8>| !text.contains('/' as u8) implies (#[trigger] target_spec(
        text,
    )) is None by {
        split_once_absent(text, 0x2f);
    }
}

/// What up to five digits spell.
proof fn short_number(p: Seq<u8>, max: int)
    requires
        1 <= p.len() <= 5,
        forall|i: int| 0 <= i < p.len() ==> '0' as u8 <= #[trigger] p[i] <= '9' as u8,
    ensures
        ({
            let at = |i: int|
                if i < p.len() {
                    p[p.len() - 1 - i] - '0' as u8
                } else {
                    0
                };
            let value = at(0) + 10 * at(1) + 100 * at(2) + 1000 * at(3) + 10000 * at(4);
            decimal(p, max) == (if value <= max {
                Some(value)
            } else {
                None
            })
        }),
        plain_part(p),
{
    reveal_with_fuel(digits_value, 6);
    assert(unsigned_part(p) == p) by {
        assert('0' as u8 <= p[0]);
    }
    let n = p.len() as int;
    assert(forall|i: int| 0 <= i < n ==> is_digit(#[trigger] p[i]));
    let q1 = p.drop_last();
    let q2 = q1.drop_last();
    let q3 = q2.drop_last();
    let q4 = q3.drop_last();
    assert(digits_value(p) == 10 * digits_value(q1) + (p[n - 1] - 0x30));
    assert(n >= 2 ==> digits_value(q1) == 10 * digits_value(q2) + (p[n - 2] - 0x30));
    assert(n >= 3 ==> digits_value(q2) == 10 * digits_value(q3) + (p[n - 3] - 0x30));
    assert(n >= 4 ==> digits_value(q3) == 10 * digits_value(q4) + (p[n - 4] - 0x30));
    assert(n >= 5 ==> digits_value(q4) == p[n - 5] - 0x30);
    assert forall|sep: u8| !is_digit(sep) implies !p.contains(sep) by {
        if p.contains(sep) {
            let i = choose|i: int| 0 <= i < p.len() && p[i] == sep;
            assert(is_digit(p[i]));
        }
    }
}

/// For all numbers up to 255, the URI made of the decimal digits of four of them with dots
/// between, with or without a colon and the digits of a port, a slash and a path names exactly
/// these numbers. Zeros in front of a number do not matter.
pub proof fn digits_name_the_address(
    p1: Seq<u8>,
    p2: Seq<u8>,
    p3: Seq<u8>,
    p4: Seq<u8>,
    port: Option<Seq<u8>>,
    path: Seq<u8>,
)
    requires
        forall|p: Seq<u8>, i: int|
            #![trigger p[i]]
            (p == p1 || p == p2 || p == p3 || p == p4) && 0 <= i < p.len() ==> '0' as u8 <= p[i]
                <= '9' as u8,
        1 <= p1.len() <= 3 && 1 <= p2.len() <= 3 && 1 <= p3.len() <= 3 && 1 <= p4.len() <= 3,
        port matches Some(text) ==> 1 <= text.len() <= 5 && (forall|i: int|
            0 <= i < text.len() ==> '0' as u8 <= #[trigger] text[i] <= '9' as u8),
    ensures
        ({
            let at = |p: Seq<u8>, i: int|
                if i < p.len() {
                    p[p.len() - 1 - i] - '0' as u8
                } else {
                    0
                };
            let value = |p: Seq<u8>|
                at(p, 0) + 10 * at(p, 1) + 100 * at(p, 2) + 1000 * at(p, 3) + 10000 * at(p, 4);
            let dot = seq!['.' as u8];
            let host = p1 + dot + p2 + dot + p3 + dot + p4;
            let server = match port {
                Some(text) => host + seq![':' as u8] + text,
                None => host,
            };
            &&& target_spec(server + seq!['/' as u8] + path) matches Some(t)
            &&& t.host == host
            &&& t.path == path
            &&& t.octets.len() == 4
            &&& t.octets[0] == (if value(p1) <= 255 { value(p1) } else { 0 })
            &&& t.octets[1] == (if value(p2) <= 255 { value(p2) } else { 0 })
            &&& t.octets[2] == (if value(p3) <= 255 { value(p3) } else { 0 })
            &&& t.octets[3] == (if value(p4) <= 255 { value(p4) } else { 0 })
            &&& t.port == (match port {
                Some(text) => if value(text) <= 65535 { value(text) } else { 80 },
                None => 80,
            })
        }),
{
    short_number(p1, 255);
    short_number(p2, 255);
    short_number(p3, 255);
    short_number(p4, 255);
    if let Some(text) = port {
        short_number(text, 65535);
    }
    uri_names_its_parts(p1, p2, p3, p4, None, port, path);
    let dot = seq![0x2eu8];
    let host = p1 + dot + p2 + dot + p3 + dot + p4;
    assert(host + Seq::<u8>::empty() =~= host);
}

/// The request, character for character: the line that asks for the path, the line that names
/// the host, the line that asks to close the connection, and an empty line.
pub proof fn request_asks_for_path_and_names_host(host: Seq<u8>, path: Seq<u8>)
    ensures
        ({
            let ascii = |text: Seq<char>| Seq::new(text.len(), |i: int| text[i] as u8);
            request_spec(host, path) == ascii("GET /"@) + path + ascii(" HTTP/1.1"@) + ascii("\r\n"@)
                + ascii("Host: "@) + host + ascii("\r\n"@) + ascii("Connection: close"@) + ascii(
                "\r\n"@,
            ) + ascii("\r\n"@)
        }),
{
    reveal_strlit("GET /");
    reveal_strlit(" HTTP/1.1");
    reveal_strlit("\r\n");
    reveal_strlit("Host: ");
    reveal_strlit("Connection: close");
    reveal_strlit(" HTTP/1.1\r\nHost: ");
    reveal_strlit("\r\nConnection: close\r\n\r\n");
    is_ascii_chars_encode_utf8("GET /"@);
    is_ascii_chars_encode_utf8(" HTTP/1.1\r\nHost: "@);
    is_ascii_chars_encode_utf8("\r\nConnection: close\r\n\r\n"@);
    let ascii = |text: Seq<char>| Seq::new(text.len(), |i: int| text[i] as u8);
    assert("GET /".spec_bytes() =~= ascii("GET /"@));
    assert(" HTTP/1.1\r\nHost: ".spec_bytes() =~= ascii(" HTTP/1.1"@) + ascii("\r\n"@) + ascii(
        "Host: "@,
    ));
    assert("\r\nConnection: close\r\n\r\n".spec_bytes() =~= ascii("\r\n"@) + ascii(
        "Connection: close"@,
    ) + ascii("\r\n"@) + ascii("\r\n"@));
    assert(request_spec(host, path) =~= ascii("GET /"@) + path + ascii(" HTTP/1.1"@) + ascii("\r\n"@)
        + ascii("Host: "@) + host + ascii("\r\n"@) + ascii("Connection: close"@) + ascii("\r\n"@)
        + ascii("\r\n"@));
}

/// What is fetched is what the text in front of the first 0 or 0xff names, and nothing else
/// that the page holds matters.
pub proof fn boot_target_is_what_the_stored_text_names(
    config: Seq<u8>,
    uri: Seq<u8>,
    end: u8,
    rest: Seq<u8>,
)
    requires
        valid_utf8(uri),
        uri.len() > 0,
        !uri.contains(0),
        end == 0 || end == 0xff,
    ensures
        boot_target_spec(uri + seq![end] + rest) == target_spec(uri),
        boot_target_spec(config) matches Some(t) ==> exists|n: int|
            {
                &&& 0 < n < config.len()
                &&& config[n] == 0 || config[n] == 0xff
                &&& !config.take(n).contains(0) && !config.take(n).contains(0xff)
                &&& valid_utf8(config.take(n))
                &&& #[trigger] target_spec(config.take(n)) == Some(t)
            },
{
    stored_uri_is_the_text_before_its_end(uri, end, rest);
    stored_uri_stands_in_front(config);
    if boot_target_spec(config) is Some {
        let n = stored_uri_spec(config)->0.len() as int;
        assert(target_spec(config.take(n)) == boot_target_spec(config));
    }
}

/// What the contracts say of a target is said of the address, port, host and path that it
/// really holds.
pub proof fn target_is_seen_as_it_is(t: Target)
    ensures
        t@.octets == t.octets@,
        t@.port == t.port,
        t@.host == t.host@,
        t@.path == t.path@,
{
}

} // verus!
