//! The parts of the Electrum client that decide what to connect to: reading
//! a `host:port` server setting.
use vstd::prelude::*;

use crate::text::{decimal, digit_char};

verus! {

/// Position of the last `:` in `s`.
pub open spec fn last_colon(s: Seq<char>) -> Option<int>
    decreases s.len(),
{
    if s.len() == 0 {
        None
    } else if s.last() == ':' {
        Some(s.len() - 1)
    } else {
        last_colon(s.drop_last())
    }
}

pub open spec fn is_ascii_digit(c: char) -> bool {
    '0' <= c <= '9'
}

/// Value of a string of decimal digits.
pub open spec fn digits_value(d: Seq<char>) -> nat
    decreases d.len(),
{
    if d.len() == 0 {
        0
    } else {
        digits_value(d.drop_last()) * 10 + ((d.last() as int) - ('0' as int)) as nat
    }
}

/// The digits of a port number, after the one `+` that `u16::from_str`
/// accepts in front of them.
pub open spec fn port_digits(p: Seq<char>) -> Seq<char> {
    if p.len() > 0 && p[0] == '+' {
        p.drop_first()
    } else {
        p
    }
}

/// A port as `u16::from_str` reads it: an optional `+`, then at least one
/// ASCII digit and nothing else, with a value that fits in 16 bits.
pub open spec fn parse_port(p: Seq<char>) -> Option<u16> {
    let d = port_digits(p);
    if d.len() > 0 && (forall|i: int| 0 <= i < d.len() ==> is_ascii_digit(#[trigger] d[i]))
        && digits_value(d) <= 65535 {
        Some(digits_value(d) as u16)
    } else {
        None
    }
}

/// The host and port of a `host:port` address, split at the last colon.
pub open spec fn host_port(s: Seq<char>) -> Option<(Seq<char>, u16)> {
    match last_colon(s) {
        Some(i) => match parse_port(s.skip(i + 1)) {
            Some(port) => Some((s.take(i), port)),
            None => None,
        },
        None => None,
    }
}

proof fn lemma_last_colon(s: Seq<char>, i: int)
    requires
        0 <= i <= s.len(),
        forall|k: int| i <= k < s.len() ==> s[k] != ':',
    ensures
        i > 0 && s[i - 1] == ':' ==> last_colon(s) == Some(i - 1),
        i == 0 ==> last_colon(s) is None,
    decreases s.len(),
{
    if s.len() > 0 && s.len() > i {
        lemma_last_colon(s.drop_last(), i);
        if i > 0 {
            assert(s.drop_last()[i - 1] == s[i - 1]);
        }
        assert forall|k: int| i <= k < s.drop_last().len() implies s.drop_last()[k] != ':' by {
            assert(s.drop_last()[k] == s[k]);
        }
        lemma_last_colon(s.drop_last(), i);
    }
}

/// A prefix of a digit string is worth no more than the whole.
proof fn lemma_digits_value_prefix(d: Seq<char>, t: int)
    requires
        0 <= t <= d.len(),
        forall|i: int| 0 <= i < d.len() ==> is_ascii_digit(#[trigger] d[i]),
    ensures
        digits_value(d.take(t)) <= digits_value(d),
    decreases d.len(),
{
    if t == d.len() {
        assert(d.take(t) =~= d);
    } else {
        let p = d.drop_last();
        assert forall|i: int| 0 <= i < p.len() implies is_ascii_digit(#[trigger] p[i]) by {
            assert(p[i] == d[i]);
        }
        lemma_digits_value_prefix(p, t);
        assert(p.take(t) =~= d.take(t));
        assert(is_ascii_digit(d[d.len() - 1]));
    }
}

/// A decimal digit's character is worth the digit.
proof fn lemma_digit_char_value(k: nat)
    requires
        k < 10,
    ensures
        is_ascii_digit(digit_char(k)),
        (digit_char(k) as int) - ('0' as int) == k,
{
}

/// The decimal digits of a number are ASCII digits worth that number, and
/// the first of them is not a `+`.
pub(crate) proof fn lemma_decimal_digits(n: nat)
    ensures
        decimal(n).len() > 0,
        forall|i: int| 0 <= i < decimal(n).len() ==> is_ascii_digit(#[trigger] decimal(n)[i]),
        digits_value(decimal(n)) == n,
    decreases n,
{
    lemma_digit_char_value(n % 10);
    if n < 10 {
        let d = decimal(n);
        assert(d =~= seq![digit_char(n)]);
        assert(d.drop_last() =~= Seq::<char>::empty());
        assert(digits_value(d.drop_last()) == 0);
    } else {
        lemma_decimal_digits(n / 10);
        let prefix = decimal(n / 10);
        let d = decimal(n);
        assert(d =~= prefix.push(digit_char(n % 10)));
        assert(d.drop_last() =~= prefix);
        assert(digits_value(d) == (n / 10) * 10 + n % 10);
        assert forall|i: int| 0 <= i < d.len() implies is_ascii_digit(#[trigger] d[i]) by {
            if i < prefix.len() {
                assert(d[i] == prefix[i]);
            }
        }
    }
}

/// A host and a port printed as `host:port` read back as that host and
/// port, whatever colons the host itself holds.
pub proof fn lemma_host_port_roundtrip(host: Seq<char>, port: u16)
    ensures
        host_port(host + seq![':'] + decimal(port as nat)) == Some((host, port)),
{
    let d = decimal(port as nat);
    let s = host + seq![':'] + d;
    let i: int = host.len() as int + 1;
    lemma_decimal_digits(port as nat);
    assert forall|k: int| i <= k < s.len() implies s[k] != ':' by {
        assert(s[k] == d[k - i]);
        assert(is_ascii_digit(d[k - i]));
    }
    assert(s[i - 1] == ':');
    lemma_last_colon(s, i);
    assert(s.skip(i) =~= d);
    assert(s.take(i - 1) =~= host);
    assert(is_ascii_digit(d[0]));
    assert(port_digits(d) == d);
}

/// Reads a port number as `u16::from_str` does.
fn parse_port_str(p: &str) -> (port: Option<u16>)
    ensures
        port == parse_port(p@),
{
    let len = p.unicode_len();
    if len == 0 {
        return None;
    }
    let start: usize = if p.get_char(0) == '+' { 1 } else { 0 };
    let ghost d = p@.skip(start as int);
    proof {
        assert(port_digits(p@) =~= d);
    }
    if start == len {
        return None;
    }
    let mut value: u32 = 0;
    let mut k: usize = start;
    proof {
        assert(d.take(0) =~= Seq::<char>::empty());
    }
    while k < len
        invariant
            start <= k <= len,
            len == p@.len(),
            d == p@.skip(start as int),
            d == port_digits(p@),
            d.len() > 0,
            value == digits_value(d.take(k - start)),
            value <= 65535,
            forall|i: int| 0 <= i < k - start ==> is_ascii_digit(#[trigger] d[i]),
        decreases len - k,
    {
        let c = p.get_char(k);
        let t: Ghost<int> = Ghost(k - start);
        proof {
            assert(d[t@] == c);
            assert(d.take(t@ + 1).drop_last() =~= d.take(t@));
            assert(d.take(t@ + 1).last() == c);
        }
        if c < '0' || c > '9' {
            proof {
                assert(!is_ascii_digit(d[t@]));
            }
            return None;
        }
        let digit: u32 = (c as u32) - ('0' as u32);
        let next: u32 = value * 10 + digit;
        if next > 65535 {
            proof {
                assert(digits_value(d.take(t@ + 1)) == next);
                if forall|i: int| 0 <= i < d.len() ==> is_ascii_digit(#[trigger] d[i]) {
                    lemma_digits_value_prefix(d, t@ + 1);
                }
            }
            return None;
        }
        value = next;
        k = k + 1;
    }
    proof {
        assert(d.take(len - start) =~= d);
    }
    Some(value as u16)
}

/// Splits a `host:port` server address at its last colon. The port must be
/// a number that fits in 16 bits.
pub fn parse_host_port(addr: &str) -> (parsed: Result<(&str, u16), String>)
    ensures
        parsed matches Ok((host, port)) ==> host_port(addr@) == Some((host@, port)),
        parsed matches Err(e) ==> host_port(addr@) is None && e@ == "invalid address '"@ + addr@
            + "': expected host:port"@,
{
    let n = addr.unicode_len();
    let mut i = n;
    while i > 0
        invariant
            i <= n,
            n == addr@.len(),
            forall|k: int| i <= k < n ==> addr@[k] != ':',
        ensures
            i <= n,
            forall|k: int| i <= k < n ==> addr@[k] != ':',
            i > 0 ==> addr@[i - 1] == ':',
        decreases i,
    {
        if addr.get_char(i - 1) == ':' {
            break;
        }
        i = i - 1;
    }
    proof {
        lemma_last_colon(addr@, i as int);
    }
    if i > 0 {
        let port_text = addr.substring_char(i, n);
        proof {
            assert(port_text@ =~= addr@.skip(i as int));
        }
        if let Some(port) = parse_port_str(port_text) {
            let host = addr.substring_char(0, i - 1);
            proof {
                assert(host@ =~= addr@.take(i - 1));
            }
            return Ok((host, port));
        }
    }
    let mut message = "invalid address '".to_owned();
    message.append(addr);
    message.append("': expected host:port");
    Err(message)
}

} // verus!
