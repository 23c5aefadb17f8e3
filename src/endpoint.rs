use vstd::prelude::*;
use crate::subscription::bytes_equal;

verus! {

/// Where a socket binds or connects.
#[derive(Clone, Debug)]
pub enum Endpoint {
    /// `tcp://HOST:PORT`; an IPv6 host loses its brackets.
    Tcp { host: Vec<u8>, port: u16 },
    /// `ipc://PATH`.
    Ipc { path: Vec<u8> },
}

impl View for Endpoint {
    /// Whether it is TCP, its host or path, and its port (0 for IPC).
    type V = (bool, Seq<u8>, u16);

    open spec fn view(&self) -> (bool, Seq<u8>, u16) {
        match self {
            Endpoint::Tcp { host, port } => (true, host@, *port),
            Endpoint::Ipc { path } => (false, path@, 0u16),
        }
    }
}

pub fn same_endpoint(a: &Endpoint, b: &Endpoint) -> (r: bool)
    ensures
        r == (a@ == b@),
{
    match (a, b) {
        (Endpoint::Tcp { host: h1, port: p1 }, Endpoint::Tcp { host: h2, port: p2 }) => *p1 == *p2 && bytes_equal(h1, h2),
        (Endpoint::Ipc { path: p1 }, Endpoint::Ipc { path: p2 }) => bytes_equal(p1, p2),
        _ => false,
    }
}

pub open spec fn tcp_scheme() -> Seq<u8> {
    seq![116u8, 99u8, 112u8, 58u8, 47u8, 47u8]
}

pub open spec fn ipc_scheme() -> Seq<u8> {
    seq![105u8, 112u8, 99u8, 58u8, 47u8, 47u8]
}

pub open spec fn has_scheme(s: Seq<u8>, scheme: Seq<u8>) -> bool {
    s.len() >= 6 && s.subrange(0, 6) == scheme
}

/// What follows the six bytes of the scheme.
pub open spec fn after_scheme(s: Seq<u8>) -> Seq<u8> {
    s.subrange(6, s.len() as int)
}

/// The position of the last `:` in `s`, or -1.
pub open spec fn last_colon(s: Seq<u8>) -> int
    decreases s.len(),
{
    if s.len() == 0 {
        -1
    } else if s.last() == 58u8 {
        s.len() - 1
    } else {
        last_colon(s.drop_last())
    }
}

pub open spec fn is_digit(b: u8) -> bool {
    48u8 <= b <= 57u8
}

/// The value of a string of decimal digits.
pub open spec fn decimal(d: Seq<u8>) -> int
    decreases d.len(),
{
    if d.len() == 0 {
        0
    } else {
        decimal(d.drop_last()) * 10 + (d.last() - 48)
    }
}

pub open spec fn pow10(k: nat) -> int
    decreases k,
{
    if k == 0 {
        1
    } else {
        10 * pow10((k - 1) as nat)
    }
}

/// One to five digits whose value is a port number.
pub open spec fn valid_port(d: Seq<u8>) -> bool {
    &&& 1 <= d.len() <= 5
    &&& forall|i: int| 0 <= i < d.len() ==> is_digit(#[trigger] d[i])
    &&& decimal(d) <= 65535
}

/// A host written `[...]` stands for what is inside the brackets.
pub open spec fn bare_host(h: Seq<u8>) -> Seq<u8> {
    if h.len() >= 2 && h[0] == 91u8 && h.last() == 93u8 {
        h.subrange(1, h.len() - 1)
    } else {
        h
    }
}

/// The host part of a TCP endpoint's text.
pub open spec fn tcp_host(s: Seq<u8>) -> Seq<u8> {
    bare_host(after_scheme(s).subrange(0, last_colon(after_scheme(s))))
}

/// The port digits of a TCP endpoint's text.
pub open spec fn tcp_port_digits(s: Seq<u8>) -> Seq<u8> {
    after_scheme(s).subrange(last_colon(after_scheme(s)) + 1, after_scheme(s).len() as int)
}

/// A well-formed TCP endpoint: a non-empty host, a colon, a port.
pub open spec fn tcp_ok(s: Seq<u8>) -> bool {
    &&& has_scheme(s, tcp_scheme())
    &&& last_colon(after_scheme(s)) >= 0
    &&& tcp_host(s).len() > 0
    &&& valid_port(tcp_port_digits(s))
}

proof fn lemma_last_colon(s: Seq<u8>)
    ensures
        -1 <= last_colon(s) < s.len(),
        last_colon(s) >= 0 ==> s[last_colon(s)] == 58u8,
        forall|j: int| last_colon(s) < j < s.len() ==> #[trigger] s[j] != 58u8,
    decreases s.len(),
{
    if s.len() > 0 && s.last() != 58u8 {
        let t = s.drop_last();
        lemma_last_colon(t);
        assert forall|j: int| last_colon(s) < j < s.len() implies #[trigger] s[j] != 58u8 by {
            if j < s.len() - 1 {
                assert(t[j] == s[j]);
            }
        }
    }
}

fn copy_range(s: &Vec<u8>, from: usize, to: usize) -> (r: Vec<u8>)
    requires
        from <= to <= s.len(),
    ensures
        r@ == s@.subrange(from as int, to as int),
{
    let mut r: Vec<u8> = Vec::new();
    let mut i: usize = from;
    while i < to
        invariant
            from <= i <= to,
            to <= s.len(),
            r@ == s@.subrange(from as int, i as int),
        decreases to - i,
    {
        r.push(s[i]);
        i = i + 1;
    }
    r
}

fn has_prefix(s: &Vec<u8>, p: [u8; 6]) -> (r: bool)
    ensures
        r == (s@.len() >= 6 && s@.subrange(0, 6) == p@),
{
    if s.len() < 6 {
        return false;
    }
    let mut i: usize = 0;
    while i < 6
        invariant
            0 <= i <= 6,
            s@.len() >= 6,
            forall|j: int| 0 <= j < i ==> s@[j] == p@[j],
        decreases 6 - i,
    {
        if s[i] != p[i] {
            assert(s@.subrange(0, 6)[i as int] != p@[i as int]);
            return false;
        }
        i = i + 1;
    }
    assert(s@.subrange(0, 6) =~= p@);
    true
}

/// The value of the digits `s[from..]`, when they form a port number.
fn parse_port(s: &Vec<u8>, from: usize) -> (r: Option<u16>)
    requires
        from <= s.len(),
    ensures
        r is Some <==> valid_port(s@.subrange(from as int, s.len() as int)),
        r matches Some(p) ==> p == decimal(s@.subrange(from as int, s.len() as int)),
{
    let ghost d = s@.subrange(from as int, s.len() as int);
    let n = s.len() - from;
    if n == 0 || n > 5 {
        return None;
    }
    let mut value: u32 = 0;
    let mut k: usize = 0;
    while k < n
        invariant
            n == s.len() - from,
            1 <= n <= 5,
            d == s@.subrange(from as int, s.len() as int),
            0 <= k <= n,
            value == decimal(d.subrange(0, k as int)),
            value < pow10(k as nat),
            forall|i: int| 0 <= i < k ==> is_digit(#[trigger] d[i]),
        decreases n - k,
    {
        let b = s[from + k];
        assert(b == d[k as int]);
        if b < 48 || b > 57 {
            return None;
        }
        assert(d.subrange(0, k + 1).drop_last() =~= d.subrange(0, k as int));
        proof {
            assert(pow10(0) == 1);
            assert(pow10(1) == 10);
            assert(pow10(2) == 100);
            assert(pow10(3) == 1000);
            assert(pow10(4) == 10000);
            assert(value < 10000);
            let v = value as int;
            let p = pow10(k as nat);
            assert(pow10((k + 1) as nat) == 10 * p);
            assert(v * 10 + (b - 48) < 10 * p) by (nonlinear_arith)
                requires v < p, 0 <= b - 48 <= 9;
        }
        value = value * 10 + (b - 48) as u32;
        k = k + 1;
    }
    assert(d.subrange(0, n as int) =~= d);
    if value > 65535 {
        return None;
    }
    Some(value as u16)
}

/// Reads an endpoint from its text. `None` for any other scheme, a TCP
/// endpoint without host or with a bad port, or an IPC endpoint without a
/// path.
pub fn parse_endpoint(s: &Vec<u8>) -> (r: Option<Endpoint>)
    ensures
        has_scheme(s@, tcp_scheme()) ==> (r is Some <==> tcp_ok(s@)),
        has_scheme(s@, ipc_scheme()) ==> (r is Some <==> after_scheme(s@).len() > 0),
        !has_scheme(s@, tcp_scheme()) && !has_scheme(s@, ipc_scheme()) ==> r is None,
        r matches Some(Endpoint::Tcp { host, port }) ==> has_scheme(s@, tcp_scheme()) && host@ == tcp_host(s@)
            && port == decimal(tcp_port_digits(s@)),
        r matches Some(Endpoint::Ipc { path }) ==> has_scheme(s@, ipc_scheme()) && path@ == after_scheme(s@),
{
    let tcp: [u8; 6] = [116, 99, 112, 58, 47, 47];
    let ipc: [u8; 6] = [105, 112, 99, 58, 47, 47];
    assert(tcp@ =~= tcp_scheme());
    assert(ipc@ =~= ipc_scheme());
    if has_prefix(s, ipc) {
        if s.len() == 6 {
            return None;
        }
        let path = copy_range(s, 6, s.len());
        return Some(Endpoint::Ipc { path });
    }
    if !has_prefix(s, tcp) {
        return None;
    }
    let ghost rest = after_scheme(s@);
    proof {
        lemma_last_colon(rest);
    }
    // find the last colon
    let mut i: usize = s.len();
    while i > 6
        invariant
            6 <= i <= s.len(),
            rest == s@.subrange(6, s.len() as int),
            forall|j: int| i <= j < s.len() ==> #[trigger] s@[j] != 58u8,
        ensures
            i == 6 || (i > 6 && s@[i - 1] == 58u8),
            forall|j: int| i <= j < s.len() ==> #[trigger] s@[j] != 58u8,
        decreases i,
    {
        if s[i - 1] == 58 {
            break;
        }
        i = i - 1;
    }
    if i == 6 {
        proof {
            if last_colon(rest) >= 0 {
                assert(s@[6 + last_colon(rest)] == rest[last_colon(rest)]);
            }
        }
        return None;
    }
    let colon = i - 1;
    proof {
        assert(rest[colon - 6] == 58u8);
        if last_colon(rest) != colon - 6 {
            if last_colon(rest) < colon - 6 {
                assert(rest[colon - 6] != 58u8);
            } else {
                assert(s@[6 + last_colon(rest)] == rest[last_colon(rest)]);
            }
        }
        assert(last_colon(rest) == colon - 6);
        assert(rest.subrange(last_colon(rest) + 1, rest.len() as int) =~= s@.subrange(i as int, s.len() as int));
        assert(rest.subrange(0, last_colon(rest)) =~= s@.subrange(6, colon as int));
    }
    let port = match parse_port(s, i) {
        Some(p) => p,
        None => {
            return None;
        },
    };
    let bracketed = colon >= 8 && s[6] == 91 && s[colon - 1] == 93;
    let host = if bracketed {
        copy_range(s, 7, colon - 1)
    } else {
        copy_range(s, 6, colon)
    };
    proof {
        let h = s@.subrange(6, colon as int);
        if bracketed {
            assert(h[0] == s@[6]);
            assert(h.last() == s@[colon - 1]);
            assert(h.subrange(1, h.len() - 1) =~= s@.subrange(7, colon - 1));
        } else {
            if h.len() >= 2 && h[0] == 91u8 && h.last() == 93u8 {
                assert(h[0] == s@[6]);
                assert(h.last() == s@[colon - 1]);
            }
        }
    }
    if host.len() == 0 {
        return None;
    }
    Some(Endpoint::Tcp { host, port })
}

} // verus!
