//! Verified construction of the small strings the proxy core needs: decimal
//! renderings of port numbers, `host:port` backend addresses, and the
//! `<service>.<namespace>.svc.cluster.local` SNI names.

use vstd::prelude::*;
use vstd::string::StringExecFns;

verus! {

/// The decimal digit character for a value in `0 ..= 9`.
pub open spec fn dec_digit_char(d: int) -> char {
    if d == 0 {
        '0'
    } else if d == 1 {
        '1'
    } else if d == 2 {
        '2'
    } else if d == 3 {
        '3'
    } else if d == 4 {
        '4'
    } else if d == 5 {
        '5'
    } else if d == 6 {
        '6'
    } else if d == 7 {
        '7'
    } else if d == 8 {
        '8'
    } else {
        '9'
    }
}

/// The decimal rendering of a non-negative integer, most significant digit
/// first, with no leading zeros (`0` renders as `"0"`).
pub open spec fn dec_str(n: int) -> Seq<char>
    decreases n,
{
    if n < 10 {
        seq![dec_digit_char(n)]
    } else {
        dec_str(n / 10) + seq![dec_digit_char(n % 10)]
    }
}

/// A one-character string slice for a decimal digit value.
fn digit_str(d: u16) -> (s: &'static str)
    requires
        d < 10,
    ensures
        s@ == seq![dec_digit_char(d as int)],
{
    proof {
        reveal_strlit("0");
        reveal_strlit("1");
        reveal_strlit("2");
        reveal_strlit("3");
        reveal_strlit("4");
        reveal_strlit("5");
        reveal_strlit("6");
        reveal_strlit("7");
        reveal_strlit("8");
        reveal_strlit("9");
    }
    match d {
        0 => "0",
        1 => "1",
        2 => "2",
        3 => "3",
        4 => "4",
        5 => "5",
        6 => "6",
        7 => "7",
        8 => "8",
        _ => "9",
    }
}

/// Appends the decimal rendering of `n` to `s`.
pub fn push_dec(s: &mut String, n: u16)
    ensures
        final(s)@ == old(s)@ + dec_str(n as int),
    decreases n,
{
    if n >= 10 {
        push_dec(s, n / 10);
        let d = n % 10;
        s.append(digit_str(d));
        assert(final(s)@ == old(s)@ + dec_str(n as int)) by {
            assert(old(s)@ + dec_str(n as int) == old(s)@ + dec_str(n as int / 10) + seq![
                dec_digit_char(n as int % 10),
            ]);
        }
    } else {
        s.append(digit_str(n));
    }
}

/// The decimal rendering of `n` as an owned string.
pub fn u16_to_string(n: u16) -> (s: String)
    ensures
        s@ == dec_str(n as int),
{
    let mut s = String::new();
    push_dec(&mut s, n);
    assert(s@ == dec_str(n as int));
    s
}

/// The backend address string for an endpoint IP and a service port.
pub open spec fn backend_addr(ip: Seq<char>, port: int) -> Seq<char> {
    ip + seq![':'] + dec_str(port)
}

/// Builds `"<ip>:<port>"` for one endpoint address.
pub fn join_host_port(ip: &String, port: u16) -> (s: String)
    ensures
        s@ == backend_addr(ip@, port as int),
{
    proof {
        reveal_strlit(":");
    }
    let mut s = ip.clone();
    s.append(":");
    push_dec(&mut s, port);
    assert(s@ == backend_addr(ip@, port as int));
    s
}

/// The cluster-internal DNS name used as the upstream SNI for a service.
pub open spec fn sni_of(name: Seq<char>, namespace: Seq<char>) -> Seq<char> {
    name + "."@ + namespace + ".svc.cluster.local"@
}

/// Builds `"<service>.<namespace>.svc.cluster.local"`.
pub fn service_sni(name: &String, namespace: &String) -> (s: String)
    ensures
        s@ == sni_of(name@, namespace@),
{
    let mut s = name.clone();
    s.append(".");
    s.append(namespace.as_str());
    s.append(".svc.cluster.local");
    assert(s@ == sni_of(name@, namespace@));
    s
}

} // verus!
