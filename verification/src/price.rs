//! Fixed-point prices: nine decimal places held in a 128-bit integer.
//!
//! Market feeds deliver prices as decimal strings; `parse_price` reads them
//! through `rust_decimal` and normalizes to this representation, truncating
//! digits beyond the ninth decimal place.
use vstd::prelude::*;

verus! {

/// Number of decimal places a `Price` carries.
pub const PRICE_SCALE: u32 = 9;

/// `10 ^ PRICE_SCALE`: atoms per whole unit.
pub const PRICE_UNIT: i128 = 1_000_000_000;

/// Bound on the atoms of a well-formed price; keeps sums of a few prices
/// representable in 128 bits.
pub const PRICE_ATOMS_LIMIT: i128 = 20_000_000_000_000_000_000_000_000_000_000_000_000;

#[derive(Debug, Clone, Copy, PartialEq, Eq, Structural)]
pub struct Price {
    pub atoms: i128,
}

pub open spec fn pow10(e: nat) -> int
    decreases e,
{
    if e == 0 {
        1
    } else {
        10 * pow10((e - 1) as nat)
    }
}

/// Atoms denoted by a decimal mantissa/scale pair, truncating extra digits.
pub open spec fn atoms_of_parts(m: int, sc: int) -> int {
    if sc <= PRICE_SCALE {
        m * pow10((PRICE_SCALE - sc) as nat)
    } else {
        m / pow10((sc - PRICE_SCALE) as nat)
    }
}

/// The price denoted by a mantissa/scale pair: non-negative, within bounds.
pub open spec fn price_of_parts(m: int, sc: int) -> Option<Price> {
    if m < 0 {
        None
    } else if atoms_of_parts(m, sc) > PRICE_ATOMS_LIMIT {
        None
    } else {
        Some(Price { atoms: atoms_of_parts(m, sc) as i128 })
    }
}

/// What `rust_decimal` parses a string to, as (mantissa, scale), or `None`
/// where the string is no decimal number.
pub uninterp spec fn decimal_parts_of(s: Seq<char>) -> Option<(i128, u32)>;

/// Relies on `rust_decimal`'s `Decimal::from_str`, `mantissa` and `scale`:
/// the parsed value is `mantissa / 10^scale`, the mantissa holds 96 bits,
/// the scale is at most 28, and the result depends on the characters alone.
#[verifier::external_body]
fn parse_decimal_parts(s: &str) -> (r: Option<(i128, u32)>)
    ensures
        r == decimal_parts_of(s@),
        r matches Some(p) ==> -0x1000000000000000000000000 < p.0 < 0x1000000000000000000000000
            && p.1 <= 28,
{
    match s.parse::<rust_decimal::Decimal>() {
        Ok(d) => Some((d.mantissa(), d.scale())),
        Err(_) => None,
    }
}

fn pow10_exec(e: u32) -> (r: u64)
    requires
        e <= 19,
    ensures
        r == pow10(e as nat),
        1 <= r,
{
    let mut i: u32 = 0;
    let mut acc: u64 = 1;
    while i < e
        invariant
            0 <= i <= e <= 19,
            acc == pow10(i as nat),
            1 <= acc,
        decreases e - i,
    {
        proof {
            lemma_pow10_mono(i as nat, 18);
            lemma_pow10_concrete();
        }
        acc = acc * 10;
        i = i + 1;
    }
    acc
}

pub proof fn lemma_pow10_pos(e: nat)
    ensures
        1 <= pow10(e),
    decreases e,
{
    if e > 0 {
        lemma_pow10_pos((e - 1) as nat);
    }
}

pub proof fn lemma_pow10_mono(e1: nat, e2: nat)
    requires
        e1 <= e2,
    ensures
        pow10(e1) <= pow10(e2),
    decreases e2,
{
    lemma_pow10_pos(e1);
    if e1 < e2 {
        lemma_pow10_mono(e1, (e2 - 1) as nat);
        lemma_pow10_pos((e2 - 1) as nat);
    }
}

pub proof fn lemma_pow10_concrete()
    ensures
        pow10(9) == 1_000_000_000,
        pow10(18) == 1_000_000_000_000_000_000,
        pow10(19) == 10_000_000_000_000_000_000,
{
    assert(pow10(0) == 1);
    assert(pow10(1) == 10);
    assert(pow10(2) == 100);
    assert(pow10(3) == 1000);
    assert(pow10(4) == 10000);
    assert(pow10(5) == 100000);
    assert(pow10(6) == 1000000);
    assert(pow10(7) == 10000000);
    assert(pow10(8) == 100000000);
    assert(pow10(9) == 1000000000);
    assert(pow10(10) == 10000000000);
    assert(pow10(11) == 100000000000);
    assert(pow10(12) == 1000000000000);
    assert(pow10(13) == 10000000000000);
    assert(pow10(14) == 100000000000000);
    assert(pow10(15) == 1000000000000000);
    assert(pow10(16) == 10000000000000000);
    assert(pow10(17) == 100000000000000000);
    assert(pow10(18) == 1000000000000000000);
    assert(pow10(19) == 10000000000000000000);
}

impl Price {
    /// Within the representable range.
    pub open spec fn wf(self) -> bool {
        -PRICE_ATOMS_LIMIT <= self.atoms <= PRICE_ATOMS_LIMIT
    }

    /// The price of `n` whole units.
    pub fn from_int(n: i64) -> (r: Price)
        ensures
            r.atoms == n * PRICE_UNIT,
            r.wf(),
    {
        Price { atoms: (n as i128) * PRICE_UNIT }
    }

    pub fn from_atoms(atoms: i128) -> (r: Price)
        requires
            -PRICE_ATOMS_LIMIT <= atoms <= PRICE_ATOMS_LIMIT,
        ensures
            r.atoms == atoms,
            r.wf(),
    {
        Price { atoms }
    }

    pub fn lt(&self, o: &Price) -> (r: bool)
        ensures
            r == (self.atoms < o.atoms),
    {
        self.atoms < o.atoms
    }

    pub fn le(&self, o: &Price) -> (r: bool)
        ensures
            r == (self.atoms <= o.atoms),
    {
        self.atoms <= o.atoms
    }

    pub fn gt(&self, o: &Price) -> (r: bool)
        ensures
            r == (self.atoms > o.atoms),
    {
        self.atoms > o.atoms
    }

    pub fn ge(&self, o: &Price) -> (r: bool)
        ensures
            r == (self.atoms >= o.atoms),
    {
        self.atoms >= o.atoms
    }

    /// The larger of the two prices.
    pub fn max(self, o: Price) -> (r: Price)
        ensures
            r.atoms == if self.atoms >= o.atoms {
                self.atoms
            } else {
                o.atoms
            },
    {
        if self.atoms >= o.atoms {
            self
        } else {
            o
        }
    }

    /// The smaller of the two prices.
    pub fn min(self, o: Price) -> (r: Price)
        ensures
            r.atoms == if self.atoms <= o.atoms {
                self.atoms
            } else {
                o.atoms
            },
    {
        if self.atoms <= o.atoms {
            self
        } else {
            o
        }
    }
}

/// Reads a decimal string to a price: `None` on strings that are no decimal
/// number, on negative values, and on values beyond the representable range.
pub fn parse_price(s: &str) -> (r: Option<Price>)
    ensures
        r matches Some(p) ==> decimal_parts_of(s@) matches Some(q) && price_of_parts(
            q.0 as int,
            q.1 as int,
        ) == Some(p) && p.wf() && p.atoms >= 0,
        r is None ==> decimal_parts_of(s@) is None || (decimal_parts_of(s@) matches Some(q)
            && price_of_parts(q.0 as int, q.1 as int) is None),
{
    let parts = parse_decimal_parts(s);
    match parts {
        None => None,
        Some((m, sc)) => {
            if m < 0 {
                return None;
            }
            if sc <= PRICE_SCALE {
                let pow = pow10_exec(PRICE_SCALE - sc);
                proof {
                    lemma_pow10_pos((PRICE_SCALE - sc) as nat);
                    lemma_pow10_mono((PRICE_SCALE - sc) as nat, 9);
                    lemma_pow10_concrete();
                    assert((m as int) * (pow as int) < 0x1000000000000000000000000
                        * (1_000_000_000 as int)) by (nonlinear_arith)
                        requires
                            0 <= (m as int),
                            (m as int) < 0x1000000000000000000000000,
                            1 <= (pow as int),
                            (pow as int) <= (1_000_000_000 as int),
                    ;
                    assert((m as int) * (pow as int) >= 0) by (nonlinear_arith)
                        requires
                            0 <= (m as int),
                            1 <= (pow as int),
                    ;
                }
                let atoms: i128 = m * (pow as i128);
                if atoms > PRICE_ATOMS_LIMIT {
                    None
                } else {
                    Some(Price { atoms })
                }
            } else {
                let pow = pow10_exec(sc - PRICE_SCALE);
                let mu: u128 = m as u128;
                let q: u128 = mu / (pow as u128);
                proof {
                    vstd::arithmetic::div_mod::lemma_div_is_ordered_by_denominator(
                        mu as int,
                        1,
                        pow as int,
                    );
                }
                let atoms: i128 = q as i128;
                if atoms > PRICE_ATOMS_LIMIT {
                    None
                } else {
                    Some(Price { atoms })
                }
            }
        },
    }
}

} // verus!
