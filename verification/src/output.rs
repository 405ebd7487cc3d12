//! Formatting of the per-file output line.
//!
//! A worker that finds `count` matches in a file reports it on standard
//! output as `<count>x in <path>`.  The line is built here as bytes, ready
//! to be written; the decimal rendering of the count is verified against
//! its mathematical definition.

use vstd::prelude::*;
use vstd::string::StringSliceAdditionalSpecFns;

verus! {

/// The decimal digits of `n`, most significant first, as ASCII bytes.
pub open spec fn dec_bytes(n: nat) -> Seq<u8>
    decreases n,
{
    if n < 10 {
        seq![(48 + n) as u8]
    } else {
        dec_bytes(n / 10).push((48 + n % 10) as u8)
    }
}

/// The separator between the count and the path: `x in `.
pub open spec fn sep_bytes() -> Seq<u8> {
    seq![120u8, 32u8, 105u8, 110u8, 32u8]
}

/// A full output line, `<count>x in <path>` with a trailing newline.
pub open spec fn line_bytes(count: nat, path: Seq<u8>) -> Seq<u8> {
    dec_bytes(count) + sep_bytes() + path + seq![10u8]
}

/// Renders `n` in decimal, most significant digit first.
pub fn u64_to_dec(n: u64) -> (r: Vec<u8>)
    ensures
        r@ == dec_bytes(n as nat),
{
    let mut digits: Vec<u8> = Vec::new();
    let mut m: u64 = n;
    proof {
        assert(dec_bytes(n as nat) =~= dec_bytes(n as nat) + Seq::<u8>::empty());
    }
    while m >= 10
        invariant
            dec_bytes(n as nat) == dec_bytes(m as nat) + digits@,
        decreases m,
    {
        let ghost pre = digits@;
        let d: u8 = (m % 10) as u8 + 48;
        digits.insert(0, d);
        proof {
            assert(dec_bytes(m as nat) == dec_bytes((m / 10) as nat).push(d));
            assert(dec_bytes((m / 10) as nat) + digits@ =~= dec_bytes(m as nat) + pre);
        }
        m = m / 10;
    }
    let ghost pre = digits@;
    let d: u8 = m as u8 + 48;
    digits.insert(0, d);
    proof {
        assert(dec_bytes(m as nat) =~= seq![d]);
        assert(dec_bytes(m as nat) + pre =~= digits@);
    }
    digits
}

/// Builds the output line for a file in which `count` matches were found.
pub fn format_match_line(count: u64, path: &str) -> (r: Vec<u8>)
    ensures
        r@ == line_bytes(count as nat, path.spec_bytes()),
{
    let mut line = u64_to_dec(count);
    line.push(120);
    line.push(32);
    line.push(105);
    line.push(110);
    line.push(32);
    proof {
        assert(line@ =~= dec_bytes(count as nat) + sep_bytes());
    }
    let path_bytes = path.as_bytes();
    let mut i: usize = 0;
    while i < path_bytes.len()
        invariant
            i <= path_bytes@.len(),
            line@ == dec_bytes(count as nat) + sep_bytes() + path_bytes@.subrange(0, i as int),
        decreases path_bytes@.len() - i,
    {
        line.push(path_bytes[i]);
        proof {
            assert((dec_bytes(count as nat) + sep_bytes() + path_bytes@.subrange(0, i as int)).push(
                path_bytes@[i as int],
            ) =~= dec_bytes(count as nat) + sep_bytes() + path_bytes@.subrange(0, i as int + 1));
        }
        i = i + 1;
    }
    line.push(10);
    proof {
        assert(path_bytes@.subrange(0, path_bytes@.len() as int) =~= path_bytes@);
        assert(line@ =~= line_bytes(count as nat, path.spec_bytes()));
    }
    line
}

} // verus!
