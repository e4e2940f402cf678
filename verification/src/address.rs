//! IPv4 addresses in dotted-quad notation.

use vstd::prelude::*;
use crate::text::{chars_of, parse_number, read_number, split, split_chars};

verus! {

/// The value of one part of a dotted quad: one to three digits, no zero in
/// front of another digit, at most 255.
pub open spec fn octet_value(s: Seq<char>) -> Option<nat> {
    match parse_number(s) {
        Some(n) if s.len() <= 3 && (s.len() == 1 || s[0] != '0') && n <= 255 => Some(n),
        _ => None,
    }
}

/// The address that `s` writes as four octets separated by dots, most
/// significant first.
pub open spec fn parse_ipv4(s: Seq<char>) -> Option<u32> {
    let parts = split(s, '.');
    if parts.len() == 4 {
        match (
            octet_value(parts[0]),
            octet_value(parts[1]),
            octet_value(parts[2]),
            octet_value(parts[3]),
        ) {
            (Some(a), Some(b), Some(c), Some(d)) => Some(
                (((a * 256 + b) * 256 + c) * 256 + d) as u32,
            ),
            _ => None,
        }
    } else {
        None
    }
}

/// Reads one part of a dotted quad.
fn read_octet(s: &Vec<char>) -> (r: Option<u32>)
    ensures
        r == match octet_value(s@) {
            Some(n) => Some(n as u32),
            None => None,
        },
{
    if s.len() > 3 || (s.len() > 1 && s[0] == '0') {
        return None;
    }
    read_number(s, 255)
}

/// Reads a dotted quad.
pub fn read_ipv4(text: &str) -> (r: Option<u32>)
    ensures
        r == parse_ipv4(text@),
{
    let chars = chars_of(text);
    let parts = split_chars(&chars, '.');
    if parts.len() != 4 {
        return None;
    }
    let a = read_octet(&parts[0]);
    let b = read_octet(&parts[1]);
    let c = read_octet(&parts[2]);
    let d = read_octet(&parts[3]);
    match (a, b, c, d) {
        (Some(a), Some(b), Some(c), Some(d)) => Some(((a * 256 + b) * 256 + c) * 256 + d),
        _ => None,
    }
}

} // verus!
