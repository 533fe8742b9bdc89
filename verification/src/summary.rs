//! The completion summary emitted for each persisted file:
//! `<path>: Applied <N> line patches`, with `N` the count of lines whose
//! content actually changed.

use vstd::prelude::*;

use crate::record::DIGIT_ZERO;

verus! {

/// The shortest base-10 digit string of `n`, most significant digit first.
pub open spec fn dec_digits(n: nat) -> Seq<u8>
    decreases n,
{
    if n < 10 {
        seq![(DIGIT_ZERO + n) as u8]
    } else {
        dec_digits(n / 10) + seq![(DIGIT_ZERO + n % 10) as u8]
    }
}

/// The bytes of the text `: Applied ` between the path and the count.
pub open spec fn summary_mid_text() -> Seq<u8> {
    seq![58u8, 32, 65, 112, 112, 108, 105, 101, 100, 32]
}

/// The bytes of the text ` line patches` after the count.
pub open spec fn summary_tail_text() -> Seq<u8> {
    seq![32u8, 108, 105, 110, 101, 32, 112, 97, 116, 99, 104, 101, 115]
}

/// The whole summary line for one persisted file, without a terminator.
pub open spec fn summary_of(path: Seq<u8>, count: nat) -> Seq<u8> {
    path + summary_mid_text() + dec_digits(count) + summary_tail_text()
}

/// The decimal digit string of `n`.
pub fn format_count(n: usize) -> (r: Vec<u8>)
    ensures
        r@ == dec_digits(n as nat),
    decreases n,
{
    if n < 10 {
        let mut r: Vec<u8> = Vec::new();
        r.push(DIGIT_ZERO + (n as u8));
        proof {
            assert(r@ =~= dec_digits(n as nat));
        }
        r
    } else {
        let mut r = format_count(n / 10);
        r.push(DIGIT_ZERO + ((n % 10) as u8));
        proof {
            assert(r@ =~= dec_digits((n / 10) as nat) + seq![(DIGIT_ZERO + (n as nat) % 10) as u8]);
            assert(dec_digits(n as nat) == dec_digits((n as nat) / 10) + seq![
                (DIGIT_ZERO + (n as nat) % 10) as u8,
            ]);
        }
        r
    }
}

/// The summary line reported for one persisted file: the path, then
/// `: Applied `, the changed-line count in decimal, and ` line patches`.
pub fn summary_line(path: &[u8], count: usize) -> (r: Vec<u8>)
    ensures
        r@ == summary_of(path@, count as nat),
{
    let mut r: Vec<u8> = Vec::new();
    let mut i: usize = 0;
    while i < path.len()
        invariant
            i <= path@.len(),
            r@ == path@.subrange(0, i as int),
        decreases path@.len() - i,
    {
        r.push(path[i]);
        proof {
            assert(r@ =~= path@.subrange(0, i + 1));
        }
        i = i + 1;
    }
    proof {
        assert(r@ =~= path@);
    }
    r.push(58);
    r.push(32);
    r.push(65);
    r.push(112);
    r.push(112);
    r.push(108);
    r.push(105);
    r.push(101);
    r.push(100);
    r.push(32);
    proof {
        assert(r@ =~= path@ + summary_mid_text());
    }
    let mut digits = format_count(count);
    r.append(&mut digits);
    let ghost with_count = r@;
    r.push(32);
    r.push(108);
    r.push(105);
    r.push(110);
    r.push(101);
    r.push(32);
    r.push(112);
    r.push(97);
    r.push(116);
    r.push(99);
    r.push(104);
    r.push(101);
    r.push(115);
    proof {
        assert(r@ =~= with_count + summary_tail_text());
        assert(r@ =~= summary_of(path@, count as nat));
    }
    r
}

} // verus!
