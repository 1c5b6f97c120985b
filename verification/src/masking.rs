//! Masks: short names unlikely to occur in a model's training data.
use vstd::prelude::*;

verus! {

/// The length of a mask.
pub const MASK_LENGTH: usize = 6;

/// The modulus of the generator's sequence.
pub const MODULUS: u128 = 3404825447;

/// The multiplier of the generator's sequence.
pub const PRIME: u128 = 3404825407;

/// The position the generator starts at.
pub const SEED: u128 = 743580272;

/// The characters masks are made of: letters that are hard to confuse.
pub open spec fn alphabet() -> Seq<char> {
    seq![
        'C', 'F', 'G', 'H', 'J', 'M', 'P', 'Q', 'R', 'V', 'W', 'X', 'c', 'f', 'g', 'h', 'j', 'm',
        'p', 'q', 'r', 'v', 'w',
    ]
}

/// `23^n`.
pub open spec fn pow23(n: nat) -> nat
    decreases n,
{
    if n == 0 {
        1
    } else {
        23 * pow23((n - 1) as nat)
    }
}

/// ASCII lowercase of a character: `A`..`Z` map to `a`..`z`.
pub open spec fn ascii_lower(c: char) -> char {
    if 'A' <= c && c <= 'Z' {
        ((c as u32) + 32) as char
    } else {
        c
    }
}

/// Character `i` of the mask at position `p`: base-23 digit `i` of `p`,
/// least significant first, the first one in lowercase.
pub open spec fn mask_char(p: u128, i: int) -> char {
    let c = alphabet()[((p as nat / pow23(i as nat)) % 23) as int];
    if i == 0 {
        ascii_lower(c)
    } else {
        c
    }
}

/// The mask generated at position `p`.
pub open spec fn mask_text(p: u128) -> Seq<char> {
    Seq::new(MASK_LENGTH as nat, |i: int| mask_char(p, i))
}

/// The position after `p`.
pub open spec fn next_position(p: u128) -> u128 {
    ((p as int * PRIME as int) % (MODULUS as int)) as u128
}

/// The ASCII lowercase of a character, as `char::to_ascii_lowercase` gives
/// it: `A`..`Z` become `a`..`z`, every other character stays.
pub(crate) fn to_ascii_lowercase(c: char) -> (r: char)
    ensures
        r == ascii_lower(c),
{
    if 'A' <= c && c <= 'Z' {
        let n: u32 = c as u32;
        let b: u8 = n as u8;
        assert(b == n);
        (b + 32) as char
    } else {
        c
    }
}

fn alphabet_char(d: u128) -> (c: char)
    requires
        d < 23,
    ensures
        c == alphabet()[d as int],
{
    if d == 0 { 'C' } else if d == 1 { 'F' } else if d == 2 { 'G' } else if d == 3 { 'H' }
    else if d == 4 { 'J' } else if d == 5 { 'M' } else if d == 6 { 'P' } else if d == 7 { 'Q' }
    else if d == 8 { 'R' } else if d == 9 { 'V' } else if d == 10 { 'W' } else if d == 11 { 'X' }
    else if d == 12 { 'c' } else if d == 13 { 'f' } else if d == 14 { 'g' } else if d == 15 { 'h' }
    else if d == 16 { 'j' } else if d == 17 { 'm' } else if d == 18 { 'p' } else if d == 19 { 'q' }
    else if d == 20 { 'r' } else if d == 21 { 'v' } else { 'w' }
}

/// A deterministic generator of masks: a linear congruential sequence of
/// positions, each written as six base-23 digits.
#[derive(Clone, Copy, Debug)]
pub struct MaskGenerator {
    position: u128,
}

impl MaskGenerator {
    #[verifier::type_invariant]
    spec fn inv(self) -> bool {
        self.position < MODULUS
    }

    /// The current position in the sequence.
    pub closed spec fn position(self) -> u128 {
        self.position
    }

    /// A generator at the fixed start of the sequence.
    pub fn new() -> (r: MaskGenerator)
        ensures
            r.position() == SEED,
    {
        MaskGenerator { position: SEED }
    }

    /// The next mask in the sequence.
    pub fn generate(&mut self) -> (r: String)
        ensures
            r@ == mask_text(old(self).position()),
            final(self).position() == next_position(old(self).position()),
    {
        proof {
            use_type_invariant(&*self);
        }
        let p = self.position;
        let mut index: u128 = p;
        let mut s = String::new();
        let mut i: usize = 0;
        assert(pow23(0) == 1);
        assert(mask_text(p).take(0) =~= Seq::<char>::empty());
        while i < MASK_LENGTH
            invariant
                0 <= i <= MASK_LENGTH,
                index as nat == p as nat / pow23(i as nat),
                s@ == mask_text(p).take(i as int),
            decreases MASK_LENGTH - i,
        {
            let d = index % 23;
            let mut c = alphabet_char(d);
            if i == 0 {
                c = to_ascii_lowercase(c);
            }
            s.push(c);
            proof {
                assert(pow23(i as nat) > 0) by {
                    lemma_pow23_positive(i as nat);
                }
                vstd::arithmetic::div_mod::lemma_div_denominator(p as int, pow23(i as nat) as int, 23);
                assert(pow23((i + 1) as nat) == pow23(i as nat) * 23);
                assert(mask_text(p).take(i + 1) =~= mask_text(p).take(i as int).push(c));
            }
            index = index / 23;
            i = i + 1;
        }
        assert(mask_text(p).take(MASK_LENGTH as int) =~= mask_text(p));
        assert(p * PRIME < 0x1_0000_0000_0000_0000_0000u128) by (nonlinear_arith)
            requires
                p < MODULUS,
        ;
        self.position = (p * PRIME) % MODULUS;
        s
    }
}

proof fn lemma_pow23_positive(n: nat)
    ensures
        pow23(n) > 0,
    decreases n,
{
    if n > 0 {
        lemma_pow23_positive((n - 1) as nat);
    }
}

impl Default for MaskGenerator {
    fn default() -> (r: MaskGenerator)
        ensures
            r.position() == SEED,
    {
        MaskGenerator::new()
    }
}

/// Every mask is six characters of the alphabet, the first a lowercase letter.
pub proof fn law_mask_shape(p: u128)
    ensures
        mask_text(p).len() == MASK_LENGTH,
        'a' <= mask_text(p)[0] && mask_text(p)[0] <= 'z',
        forall|i: int| 1 <= i < MASK_LENGTH ==> alphabet().contains(#[trigger] mask_text(p)[i]),
{
    let d = ((p as nat / pow23(0)) % 23) as int;
    assert(0 <= d < 23);
    let c = alphabet()[d];
    assert(('A' <= c && c <= 'Z') || ('a' <= c && c <= 'z'));
    assert forall|i: int| 1 <= i < MASK_LENGTH implies alphabet().contains(#[trigger] mask_text(p)[i]) by {
        let e = ((p as nat / pow23(i as nat)) % 23) as int;
        assert(alphabet()[e] == mask_text(p)[i]);
    }
}

/// The position reached from `p` after `n` steps.
pub open spec fn position_after(p: u128, n: nat) -> u128
    decreases n,
{
    if n == 0 {
        p
    } else {
        position_after(next_position(p), (n - 1) as nat)
    }
}

/// The masks at the first `k` positions of the sequence from `p`.
pub open spec fn masks_from(p: u128, k: nat) -> Seq<Seq<char>> {
    Seq::new(k, |i: int| mask_text(position_after(p, i as nat)))
}

/// Masks are reproducible: `k + 1` successive calls of `generate` on a
/// generator at position `p` give `masks_from(p, k + 1)`, since the first
/// call gives `mask_text(p)` and leaves the generator at `next_position(p)`,
/// from where the rest follow.  What a run of calls gives thus depends on the
/// start position alone, and `new` and `default` both start at `SEED`.
pub proof fn law_generation_reproducible(p: u128, k: nat)
    ensures
        masks_from(p, k + 1) == seq![mask_text(p)] + masks_from(next_position(p), k),
        masks_from(p, k + 1)[0] == mask_text(p),
{
    let l = masks_from(p, k + 1);
    let r = seq![mask_text(p)] + masks_from(next_position(p), k);
    assert forall|i: int| 0 <= i < l.len() implies l[i] == r[i] by {
        if i > 0 {
            assert(position_after(p, i as nat) == position_after(next_position(p), (i - 1) as nat));
        }
    }
    assert(l =~= r);
}

} // verus!
