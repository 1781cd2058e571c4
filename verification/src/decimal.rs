//! Decimal rendering of signed integers, used for the integer short
//! encodings, integer sets and packed-list numbers, together with the proof
//! that rendering loses nothing: parsing the rendered text gives the number
//! back.
use vstd::prelude::*;

verus! {

/// The decimal digits of `n`, most significant first.
pub open spec fn dec_digits(n: nat) -> Seq<u8>
    decreases n,
{
    if n < 10 {
        seq![(48 + n) as u8]
    } else {
        dec_digits(n / 10).push((48 + n % 10) as u8)
    }
}

/// The decimal rendering of `v`: a minus sign for negative values, then the
/// digits of the magnitude.
pub open spec fn dec_of(v: int) -> Seq<u8> {
    if v < 0 {
        seq![45u8] + dec_digits((-v) as nat)
    } else {
        dec_digits(v as nat)
    }
}

/// The number a sequence of decimal digits denotes.
pub open spec fn digits_val(s: Seq<u8>) -> int
    decreases s.len(),
{
    if s.len() == 0 {
        0
    } else {
        digits_val(s.drop_last()) * 10 + (s.last() - 48)
    }
}

/// The number a decimal rendering denotes, honouring a leading minus sign.
pub open spec fn dec_val(s: Seq<u8>) -> int {
    if s.len() > 0 && s[0] == 45 {
        -digits_val(s.skip(1))
    } else {
        digits_val(s)
    }
}

/// Every byte of a digit run is an ASCII digit.
pub proof fn lemma_dec_digits_are_digits(n: nat)
    ensures
        forall|i: int| 0 <= i < dec_digits(n).len() ==> 48 <= #[trigger] dec_digits(n)[i] <= 57,
    decreases n,
{
    if n < 10 {
        assert(dec_digits(n) =~= seq![(48 + n) as u8]);
        assert(dec_digits(n)[0] == (48 + n) as u8);
    } else {
        lemma_dec_digits_are_digits(n / 10);
        let prior = dec_digits(n / 10);
        let x = (48 + n % 10) as u8;
        assert(dec_digits(n) =~= prior.push(x));
        assert forall|i: int| 0 <= i < dec_digits(n).len() implies 48 <= #[trigger] dec_digits(
            n,
        )[i] <= 57 by {
            if i < prior.len() {
                assert(dec_digits(n)[i] == prior[i]);
            } else {
                assert(dec_digits(n)[i] == x);
            }
        }
    }
}

proof fn lemma_digits_val_of_dec_digits(n: nat)
    ensures
        digits_val(dec_digits(n)) == n,
    decreases n,
{
    if n < 10 {
        let s = dec_digits(n);
        assert(s =~= seq![(48 + n) as u8]);
        assert(s.drop_last() =~= Seq::<u8>::empty());
        assert(digits_val(s.drop_last()) == 0);
        assert(s.last() == (48 + n) as u8);
        assert(digits_val(s) == 0 * 10 + ((48 + n) as u8 - 48));
    } else {
        lemma_digits_val_of_dec_digits(n / 10);
        let prior = dec_digits(n / 10);
        let x = (48 + n % 10) as u8;
        let s = dec_digits(n);
        assert(s =~= prior.push(x));
        assert(s.drop_last() =~= prior);
        assert(digits_val(s.drop_last()) == digits_val(prior));
        assert(s.last() == x);
        assert(digits_val(s) == digits_val(prior) * 10 + (x - 48));
        vstd::arithmetic::div_mod::lemma_fundamental_div_mod(n as int, 10);
    }
}

/// Rendering a number and parsing the text gives the number back: the
/// decimal form of the integer short encodings is lossless.
pub proof fn lemma_dec_roundtrip(v: int)
    ensures
        dec_val(dec_of(v)) == v,
{
    if v < 0 {
        let n = (-v) as nat;
        let s = dec_of(v);
        assert(s[0] == 45);
        assert(s.skip(1) =~= dec_digits(n));
        lemma_digits_val_of_dec_digits(n);
    } else {
        lemma_digits_val_of_dec_digits(v as nat);
        lemma_dec_digits_are_digits(v as nat);
        assert(dec_of(v)[0] != 45);
    }
}

fn push_digits(n: u64, out: &mut Vec<u8>)
    ensures
        final(out)@ == old(out)@ + dec_digits(n as nat),
    decreases n,
{
    if n < 10 {
        out.push(48 + (n as u8));
        proof {
            assert(out@ =~= old(out)@ + dec_digits(n as nat));
        }
    } else {
        push_digits(n / 10, out);
        out.push(48 + ((n % 10) as u8));
        proof {
            assert(out@ =~= old(out)@ + dec_digits(n as nat));
        }
    }
}

/// The decimal rendering of `v` as bytes.
pub fn int_to_vec(v: i64) -> (r: Vec<u8>)
    ensures
        r@ == dec_of(v as int),
{
    let mut out: Vec<u8> = Vec::new();
    if v < 0 {
        out.push(45);
        let mag: u64 = if v == i64::MIN {
            0x8000000000000000u64
        } else {
            (-v) as u64
        };
        push_digits(mag, &mut out);
        proof {
            assert(out@ =~= seq![45u8] + dec_digits(mag as nat));
        }
    } else {
        push_digits(v as u64, &mut out);
        proof {
            assert(out@ =~= dec_digits(v as nat));
        }
    }
    out
}

} // verus!
