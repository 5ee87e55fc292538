//! Decimal and dotted-quad rendering, and the two strings handed to the
//! packet-filter tool: the address-set name and the timed allow-element.

use vstd::prelude::*;

verus! {

pub open spec fn spec_digit_char(d: int) -> char
    recommends
        0 <= d <= 9,
{
    if d == 0 {
        '0'
    } else if d == 1 {
        '1'
    } else if d == 2 {
        '2'
    } else if d == 3 {
        '3'
    } else if d == 4 {
        '4'
    } else if d == 5 {
        '5'
    } else if d == 6 {
        '6'
    } else if d == 7 {
        '7'
    } else if d == 8 {
        '8'
    } else {
        '9'
    }
}

/// The decimal digits of `n`, most significant first, no leading zero.
pub open spec fn spec_dec(n: int) -> Seq<char>
    recommends
        n >= 0,
    decreases n,
{
    if n < 10 {
        seq![spec_digit_char(n)]
    } else {
        spec_dec(n / 10).push(spec_digit_char(n % 10))
    }
}

/// An IPv4 address in dotted-quad form, most significant octet first.
pub open spec fn spec_ipv4(ip: u32) -> Seq<char> {
    spec_dec(((ip >> 24) & 0xff) as int) + seq!['.'] + spec_dec(((ip >> 16) & 0xff) as int)
        + seq!['.'] + spec_dec(((ip >> 8) & 0xff) as int) + seq!['.'] + spec_dec((ip & 0xff) as int)
}

fn digit_str(d: u8) -> (r: &'static str)
    requires
        d <= 9,
    ensures
        r@ =~= seq![spec_digit_char(d as int)],
{
    proof {
        reveal_strlit("0");
        reveal_strlit("1");
        reveal_strlit("2");
        reveal_strlit("3");
        reveal_strlit("4");
        reveal_strlit("5");
        reveal_strlit("6");
        reveal_strlit("7");
        reveal_strlit("8");
        reveal_strlit("9");
    }
    match d {
        0 => "0",
        1 => "1",
        2 => "2",
        3 => "3",
        4 => "4",
        5 => "5",
        6 => "6",
        7 => "7",
        8 => "8",
        _ => "9",
    }
}

/// Render `n` in decimal.
pub fn u64_dec(n: u64) -> (r: String)
    ensures
        r@ == spec_dec(n as int),
    decreases n,
{
    if n < 10 {
        let s = digit_str(n as u8);
        let r = s.to_owned();
        r
    } else {
        let mut r = u64_dec(n / 10);
        let d = digit_str((n % 10) as u8);
        r.append(d);
        proof {
            assert(spec_dec((n / 10) as int) + seq![spec_digit_char((n % 10) as int)] =~= spec_dec(
                n as int,
            ));
        }
        r
    }
}

/// Render an IPv4 address in dotted-quad form.
pub fn ipv4_string(ip: u32) -> (r: String)
    ensures
        r@ == spec_ipv4(ip),
{
    proof {
        assert((ip >> 24) & 0xff < 256 && (ip >> 16) & 0xff < 256 && (ip >> 8) & 0xff < 256 && ip
            & 0xff < 256) by (bit_vector);
        reveal_strlit(".");
    }
    let mut r = u64_dec(((ip >> 24) & 0xff) as u64);
    r.append(".");
    let b = u64_dec(((ip >> 16) & 0xff) as u64);
    r.append(b.as_str());
    r.append(".");
    let c = u64_dec(((ip >> 8) & 0xff) as u64);
    r.append(c.as_str());
    r.append(".");
    let d = u64_dec((ip & 0xff) as u64);
    r.append(d.as_str());
    proof {
        assert("."@ =~= seq!['.']);
        assert(r@ =~= spec_ipv4(ip));
    }
    r
}

/// The address-set that holds the allowed sources is named after the chain
/// by convention.
pub open spec fn spec_set_name(chain: Seq<char>) -> Seq<char> {
    chain + "_set"@
}

/// The name of the timeout-set that belongs to `chain`.
pub fn set_name(chain: &str) -> (r: String)
    ensures
        r@ == spec_set_name(chain@),
{
    let mut r = chain.to_owned();
    r.append("_set");
    r
}

/// The element expression that adds `ip` to a timeout-set for `open_secs`
/// seconds.
pub open spec fn spec_allow_element(ip: u32, open_secs: u64) -> Seq<char> {
    "{ "@ + spec_ipv4(ip) + " timeout "@ + spec_dec(open_secs as int) + "s }"@
}

/// The set-element argument of one allow-entry insertion.
pub fn allow_element(ip: u32, open_secs: u64) -> (r: String)
    ensures
        r@ == spec_allow_element(ip, open_secs),
{
    let mut r = String::new();
    r.append("{ ");
    let ip_s = ipv4_string(ip);
    r.append(ip_s.as_str());
    r.append(" timeout ");
    let secs = u64_dec(open_secs);
    r.append(secs.as_str());
    r.append("s }");
    proof {
        assert(r@ =~= spec_allow_element(ip, open_secs));
    }
    r
}

} // verus!
