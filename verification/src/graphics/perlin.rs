//! Perlin noise tables.

use vstd::prelude::*;
use rand::rngs::ThreadRng;
use crate::rng::random_below;
use crate::scalar::Scalar;

verus! {

/// Number of lattice values and length of each permutation table.
pub const POINT_COUNT: usize = 256;

/// Whether `p` holds each of the numbers below [`POINT_COUNT`] exactly once.
pub open spec fn is_permutation(p: Seq<usize>) -> bool {
    &&& p.len() == POINT_COUNT
    &&& forall|i: int| 0 <= i < p.len() ==> p[i] < POINT_COUNT
    &&& forall|i: int, j: int| 0 <= i < j < p.len() ==> p[i] != p[j]
}

/// Perlin noise generator: a table of lattice values, and one permutation
/// table for each axis.
pub struct Perlin {
    rand_f: [Scalar; 256],
    perm_x: Vec<usize>,
    perm_y: Vec<usize>,
    perm_z: Vec<usize>,
}

impl Perlin {
    #[verifier::type_invariant]
    spec fn well_formed(&self) -> bool {
        &&& is_permutation(self.perm_x@)
        &&& is_permutation(self.perm_y@)
        &&& is_permutation(self.perm_z@)
    }

    /// The lattice values.
    pub closed spec fn values(&self) -> Seq<Scalar> {
        self.rand_f@
    }

    /// The permutation table of the X axis.
    pub closed spec fn table_x(&self) -> Seq<usize> {
        self.perm_x@
    }

    /// The permutation table of the Y axis.
    pub closed spec fn table_y(&self) -> Seq<usize> {
        self.perm_y@
    }

    /// The permutation table of the Z axis.
    pub closed spec fn table_z(&self) -> Seq<usize> {
        self.perm_z@
    }

    /// Place in the value table of the lattice point `(i, j, k)`.
    pub open spec fn slot(&self, i: usize, j: usize, k: usize) -> usize {
        self.table_x()[(i & 255) as int] ^ self.table_y()[(j & 255) as int] ^ self.table_z()[(k
            & 255) as int]
    }

    /// The lattice value at the corner `(di, dj, dk)` of the cell `(i, j, k)`;
    /// coordinates wrap around.
    pub open spec fn corner(&self, i: usize, j: usize, k: usize, di: usize, dj: usize, dk: usize) -> Scalar {
        self.values()[self.slot(
            vstd::wrapping::usize_specs::wrapping_add(i, di),
            vstd::wrapping::usize_specs::wrapping_add(j, dj),
            vstd::wrapping::usize_specs::wrapping_add(k, dk),
        ) as int]
    }

    /// A generator over the lattice values `rand_f`, with three freshly
    /// shuffled permutation tables.
    pub fn new(rand_f: [Scalar; 256], rng: &mut ThreadRng) -> (perlin: Self)
        ensures
            perlin.values() == rand_f@,
            is_permutation(perlin.table_x()),
            is_permutation(perlin.table_y()),
            is_permutation(perlin.table_z()),
    {
        let perm_x = Self::gen_perm(rng);
        let perm_y = Self::gen_perm(rng);
        let perm_z = Self::gen_perm(rng);
        Perlin { rand_f, perm_x, perm_y, perm_z }
    }

    /// The lattice values.
    pub fn rand_f(&self) -> (values: &[Scalar; 256])
        ensures
            values@ == self.values(),
    {
        &self.rand_f
    }

    /// The permutation table of the X axis.
    pub fn perm_x(&self) -> (table: &Vec<usize>)
        ensures
            table@ == self.table_x(),
            is_permutation(table@),
    {
        proof {
            use_type_invariant(self);
        }
        &self.perm_x
    }

    /// The permutation table of the Y axis.
    pub fn perm_y(&self) -> (table: &Vec<usize>)
        ensures
            table@ == self.table_y(),
            is_permutation(table@),
    {
        proof {
            use_type_invariant(self);
        }
        &self.perm_y
    }

    /// The permutation table of the Z axis.
    pub fn perm_z(&self) -> (table: &Vec<usize>)
        ensures
            table@ == self.table_z(),
            is_permutation(table@),
    {
        proof {
            use_type_invariant(self);
        }
        &self.perm_z
    }

    /// The lattice values at the eight corners of the cell `(i, j, k)`, the
    /// corner `(di, dj, dk)` at the place `4 * di + 2 * dj + dk`. The noise at
    /// a point is the blend of these values by the point's position in its
    /// cell.
    pub fn noise(&self, i: usize, j: usize, k: usize) -> (c: Vec<Scalar>)
        ensures
            c@.len() == 8,
            forall|di: usize, dj: usize, dk: usize|
                di < 2 && dj < 2 && dk < 2 ==> c@[4 * di + 2 * dj + dk] == #[trigger] self.corner(
                    i,
                    j,
                    k,
                    di,
                    dj,
                    dk,
                ),
    {
        let mut c: Vec<Scalar> = Vec::new();
        let mut n: usize = 0;
        while n < 8
            invariant
                n <= 8,
                c@.len() == n,
                forall|di: usize, dj: usize, dk: usize|
                    di < 2 && dj < 2 && dk < 2 && 4 * di + 2 * dj + dk < n ==> c@[4 * di + 2 * dj
                        + dk] == #[trigger] self.corner(i, j, k, di, dj, dk),
            decreases 8 - n,
        {
            let di: usize = n / 4;
            let dj: usize = (n / 2) % 2;
            let dk: usize = n % 2;
            let value = self.lookup(i.wrapping_add(di), j.wrapping_add(dj), k.wrapping_add(dk));
            c.push(value);
            n = n + 1;
        }
        c
    }

    /// The lattice value of the lattice point `(i, j, k)`.
    fn lookup(&self, i: usize, j: usize, k: usize) -> (value: Scalar)
        ensures
            self.slot(i, j, k) < POINT_COUNT,
            value == self.values()[self.slot(i, j, k) as int],
    {
        proof {
            use_type_invariant(self);
        }
        let a: usize = i & 255;
        let b: usize = j & 255;
        let c: usize = k & 255;
        assert(i & 255 < 256) by (bit_vector);
        assert(j & 255 < 256) by (bit_vector);
        assert(k & 255 < 256) by (bit_vector);
        let x: usize = self.perm_x[a];
        let y: usize = self.perm_y[b];
        let z: usize = self.perm_z[c];
        assert(x ^ y ^ z < 256) by (bit_vector)
            requires
                x < 256,
                y < 256,
                z < 256,
        ;
        self.rand_f[x ^ y ^ z]
    }

    /// A shuffled table of the numbers below [`POINT_COUNT`]: starting from
    /// the identity, each place from the last down to the second trades its
    /// entry with a randomly drawn earlier place.
    fn gen_perm(rng: &mut ThreadRng) -> (p: Vec<usize>)
        ensures
            is_permutation(p@),
    {
        let mut p: Vec<usize> = Vec::new();
        let mut n: usize = 0;
        while n < POINT_COUNT
            invariant
                n <= POINT_COUNT,
                p@.len() == n,
                forall|i: int| 0 <= i < n ==> p@[i] == i,
            decreases POINT_COUNT - n,
        {
            p.push(n);
            n = n + 1;
        }
        let mut i: usize = POINT_COUNT - 1;
        while i >= 1
            invariant
                i < POINT_COUNT,
                is_permutation(p@),
            decreases i,
        {
            let target = random_below(rng, i);
            let a: usize = p[i];
            let b: usize = p[target];
            p.set(i, b);
            p.set(target, a);
            i = i - 1;
        }
        p
    }
}

} // verus!
