//! The network address of a game server — the sole identity of a server
//! record — and its textual grammar `a.b.c.d:port`.

use vstd::prelude::*;

verus! {

use crate::text::{lemma_first_idx_props, parse_dec, parse_dec_bounded};

/// An IPv4 socket address: four octets and a port.
#[derive(Clone, Copy, Debug, PartialEq, Eq, Hash, Structural)]
pub struct ServerAddr {
    pub o1: u8,
    pub o2: u8,
    pub o3: u8,
    pub o4: u8,
    pub port: u16,
}

/// The octet denoted by `s`, if `s` is canonical decimal below 256.
pub open spec fn spec_octet(s: Seq<char>) -> Option<u8> {
    match parse_dec(s) {
        Some(v) => if v <= 255 {
            Some(v as u8)
        } else {
            None
        },
        None => None,
    }
}

/// The port denoted by `s`, if `s` is canonical decimal below 65536.
pub open spec fn spec_port(s: Seq<char>) -> Option<u16> {
    match parse_dec(s) {
        Some(v) => if v <= 65535 {
            Some(v as u16)
        } else {
            None
        },
        None => None,
    }
}

/// The four octets denoted by `ip`, if `ip` is `a.b.c.d` with canonical
/// decimal octets.
pub open spec fn spec_parse_ip(ip: Seq<char>) -> Option<(u8, u8, u8, u8)> {
    let d1 = crate::text::first_idx(ip, '.');
    if d1 == ip.len() {
        None
    } else {
        let s1 = ip.take(d1);
        let r1 = ip.skip(d1 + 1);
        let d2 = crate::text::first_idx(r1, '.');
        if d2 == r1.len() {
            None
        } else {
            let s2 = r1.take(d2);
            let r2 = r1.skip(d2 + 1);
            let d3 = crate::text::first_idx(r2, '.');
            if d3 == r2.len() {
                None
            } else {
                let s3 = r2.take(d3);
                let s4 = r2.skip(d3 + 1);
                match (spec_octet(s1), spec_octet(s2), spec_octet(s3), spec_octet(s4)) {
                    (Some(a), Some(b), Some(c), Some(d)) => Some((a, b, c, d)),
                    _ => None,
                }
            }
        }
    }
}

/// The address denoted by `s`, if `s` is `a.b.c.d:port` with canonical
/// decimal fields in range.
pub open spec fn spec_parse_addr(s: Seq<char>) -> Option<ServerAddr> {
    let ci = crate::text::first_idx(s, ':');
    if ci == s.len() {
        None
    } else {
        let ip = s.take(ci);
        let ps = s.skip(ci + 1);
        match (spec_parse_ip(ip), spec_port(ps)) {
            (Some(o), Some(p)) => Some(
                ServerAddr { o1: o.0, o2: o.1, o3: o.2, o4: o.3, port: p },
            ),
            _ => None,
        }
    }
}

/// The index of the first occurrence of `ch` in `s`, or the length of `s`
/// when `ch` does not occur.
pub fn find_char(s: &str, ch: char) -> (r: usize)
    ensures
        r == crate::text::first_idx(s@, ch),
        r <= s@.len(),
{
    let n = s.unicode_len();
    let mut i: usize = 0;
    while i < n
        invariant
            0 <= i <= n,
            n == s@.len(),
            forall|j: int| 0 <= j < i ==> s@[j] != ch,
        decreases n - i,
    {
        if s.get_char(i) == ch {
            proof {
                lemma_first_idx_props(s@, ch);
                crate::text::lemma_first_idx_eq(s@, ch, i as int);
            }
            return i;
        }
        i += 1;
    }
    proof {
        lemma_first_idx_props(s@, ch);
        crate::text::lemma_first_idx_eq(s@, ch, n as int);
    }
    n
}

/// Reads a server address from its text form, exactly the strings that
/// the grammar admits.
pub fn parse_server_addr(s: &str) -> (r: Option<ServerAddr>)
    ensures
        r == spec_parse_addr(s@),
{
    let n = s.unicode_len();
    let ci = find_char(s, ':');
    if ci == n {
        return None;
    }
    let ip = s.substring_char(0, ci);
    let ports = s.substring_char(ci + 1, n);
    proof {
        assert(ip@ =~= s@.take(ci as int));
        assert(ports@ =~= s@.skip(ci + 1));
    }
    let port = match parse_dec_bounded(ports, 65535) {
        Some(v) => v as u16,
        None => {
            return None;
        },
    };
    let ip_len = ip.unicode_len();
    let d1 = find_char(ip, '.');
    if d1 == ip_len {
        return None;
    }
    let s1 = ip.substring_char(0, d1);
    let r1 = ip.substring_char(d1 + 1, ip_len);
    proof {
        assert(s1@ =~= ip@.take(d1 as int));
        assert(r1@ =~= ip@.skip(d1 + 1));
    }
    let r1_len = r1.unicode_len();
    let d2 = find_char(r1, '.');
    if d2 == r1_len {
        return None;
    }
    let s2 = r1.substring_char(0, d2);
    let r2 = r1.substring_char(d2 + 1, r1_len);
    proof {
        assert(s2@ =~= r1@.take(d2 as int));
        assert(r2@ =~= r1@.skip(d2 + 1));
    }
    let r2_len = r2.unicode_len();
    let d3 = find_char(r2, '.');
    if d3 == r2_len {
        return None;
    }
    let s3 = r2.substring_char(0, d3);
    let s4 = r2.substring_char(d3 + 1, r2_len);
    proof {
        assert(s3@ =~= r2@.take(d3 as int));
        assert(s4@ =~= r2@.skip(d3 + 1));
    }
    let o1 = match parse_dec_bounded(s1, 255) {
        Some(v) => v as u8,
        None => {
            return None;
        },
    };
    let o2 = match parse_dec_bounded(s2, 255) {
        Some(v) => v as u8,
        None => {
            return None;
        },
    };
    let o3 = match parse_dec_bounded(s3, 255) {
        Some(v) => v as u8,
        None => {
            return None;
        },
    };
    let o4 = match parse_dec_bounded(s4, 255) {
        Some(v) => v as u8,
        None => {
            return None;
        },
    };
    Some(ServerAddr { o1, o2, o3, o4, port })
}

} // verus!
