use vstd::prelude::*;

verus! {

/// Number of distinct values each individual stat can take (0 to 15).
pub const IV_RANGE: u8 = 16;

/// Number of distinct combinations of individual values.
pub const IV_COUNT: usize = 4096;

/// The individual values (0 to 15 each) of a Pokémon's three stats.
#[derive(Debug, Clone, Copy, PartialEq, Eq, Structural)]
pub struct IV {
    pub attack: u8,
    pub defense: u8,
    pub stamina: u8,
}

impl IV {
    /// Each stat lies in 0..16.
    pub open spec fn is_valid(self) -> bool {
        self.attack < 16 && self.defense < 16 && self.stamina < 16
    }
}

/// Position of a combination in the enumeration order: attack first,
/// then defense, then stamina.
pub open spec fn iv_index(iv: IV) -> int {
    iv.attack * 256 + iv.defense * 16 + iv.stamina
}

/// The combination at position `i` of the enumeration order.
pub open spec fn iv_at(i: int) -> IV {
    IV { attack: (i / 256) as u8, defense: ((i / 16) % 16) as u8, stamina: (i % 16) as u8 }
}

proof fn lemma_iv_at_index(a: int, d: int, s: int)
    requires
        0 <= a < 16,
        0 <= d < 16,
        0 <= s < 16,
    ensures
        (a * 256 + d * 16 + s) / 256 == a,
        ((a * 256 + d * 16 + s) / 16) % 16 == d,
        (a * 256 + d * 16 + s) % 16 == s,
{
    assert((a * 256 + d * 16 + s) / 256 == a) by (nonlinear_arith)
        requires 0 <= a < 16, 0 <= d < 16, 0 <= s < 16;
    assert((a * 256 + d * 16 + s) / 16 == a * 16 + d) by (nonlinear_arith)
        requires 0 <= a < 16, 0 <= d < 16, 0 <= s < 16;
    assert((a * 16 + d) % 16 == d) by (nonlinear_arith)
        requires 0 <= a < 16, 0 <= d < 16;
    assert((a * 256 + d * 16 + s) % 16 == s) by (nonlinear_arith)
        requires 0 <= a < 16, 0 <= d < 16, 0 <= s < 16;
}

/// Every valid combination sits at its own position of the enumeration:
/// `iv_at` undoes `iv_index`.
pub proof fn lemma_iv_index_roundtrip(iv: IV)
    requires
        iv.is_valid(),
    ensures
        0 <= iv_index(iv) < 4096,
        iv_at(iv_index(iv)) == iv,
{
    lemma_iv_at_index(iv.attack as int, iv.defense as int, iv.stamina as int);
}

/// Every position of the enumeration holds a valid combination, and
/// `iv_index` undoes `iv_at`.
pub proof fn lemma_iv_at_roundtrip(i: int)
    requires
        0 <= i < 4096,
    ensures
        iv_at(i).is_valid(),
        iv_index(iv_at(i)) == i,
{
    let a = i / 256;
    let d = (i / 16) % 16;
    let s = i % 16;
    assert(i == a * 256 + d * 16 + s && 0 <= a < 16 && 0 <= d < 16 && 0 <= s < 16)
        by (nonlinear_arith)
        requires 0 <= i < 4096, a == i / 256, d == (i / 16) % 16, s == i % 16;
}

/// All 4096 combinations of individual values, attack varying slowest and
/// stamina fastest.
pub fn iv_all() -> (all: Vec<IV>)
    ensures
        all@.len() == IV_COUNT,
        forall|i: int| 0 <= i < IV_COUNT ==> #[trigger] all@[i] == iv_at(i),
{
    let mut all: Vec<IV> = Vec::new();
    let mut attack: u8 = 0;
    while attack < IV_RANGE
        invariant
            attack <= 16,
            all@.len() == attack * 256,
            forall|i: int| 0 <= i < all@.len() ==> #[trigger] all@[i] == iv_at(i),
        decreases 16 - attack,
    {
        let mut defense: u8 = 0;
        while defense < IV_RANGE
            invariant
                attack < 16,
                defense <= 16,
                all@.len() == attack * 256 + defense * 16,
                forall|i: int| 0 <= i < all@.len() ==> #[trigger] all@[i] == iv_at(i),
            decreases 16 - defense,
        {
            let mut stamina: u8 = 0;
            while stamina < IV_RANGE
                invariant
                    attack < 16,
                    defense < 16,
                    stamina <= 16,
                    all@.len() == attack * 256 + defense * 16 + stamina,
                    forall|i: int| 0 <= i < all@.len() ==> #[trigger] all@[i] == iv_at(i),
                decreases 16 - stamina,
            {
                proof {
                    lemma_iv_at_index(attack as int, defense as int, stamina as int);
                }
                all.push(IV { attack, defense, stamina });
                stamina = stamina + 1;
            }
            defense = defense + 1;
        }
        attack = attack + 1;
    }
    all
}


/// The enumeration lists the combinations in lexicographic order of attack,
/// then defense, then stamina: a combination at an earlier position comes
/// first in that order.
pub proof fn lemma_enumeration_is_lexicographic(i: int, j: int)
    requires
        0 <= i < j < 4096,
    ensures
        ({
            let x = iv_at(i);
            let y = iv_at(j);
            ||| x.attack < y.attack
            ||| x.attack == y.attack && x.defense < y.defense
            ||| x.attack == y.attack && x.defense == y.defense && x.stamina < y.stamina
        }),
{
    lemma_iv_at_roundtrip(i);
    lemma_iv_at_roundtrip(j);
    let x = iv_at(i);
    let y = iv_at(j);
    let (a1, d1, s1) = (x.attack as int, x.defense as int, x.stamina as int);
    let (a2, d2, s2) = (y.attack as int, y.defense as int, y.stamina as int);
    assert(a1 * 256 + d1 * 16 + s1 < a2 * 256 + d2 * 16 + s2);
    assert(a1 < a2 || (a1 == a2 && d1 < d2) || (a1 == a2 && d1 == d2 && s1 < s2)) by (nonlinear_arith)
        requires
            a1 * 256 + d1 * 16 + s1 < a2 * 256 + d2 * 16 + s2,
            0 <= a1 < 16, 0 <= d1 < 16, 0 <= s1 < 16,
            0 <= a2 < 16, 0 <= d2 < 16, 0 <= s2 < 16;
}

} // verus!
