//! Lattice hashing for gradient noise.
//!
//! Gradient noise assigns one of 256 gradient vectors to every point of the
//! integer lattice. Which one is decided by three permutations of the
//! numbers 0 to 255, one per axis: the lattice point `(i, j, k)` gets the
//! gradient whose number is the exclusive or of the three table entries at
//! `i`, `j` and `k`, each taken modulo 256.

use crate::rng::shuffle;
use vstd::prelude::*;

verus! {

/// The number of gradients, and the length of each permutation table.
pub const POINT_COUNT: usize = 256;

/// `s` holds each of the numbers 0 to 255 exactly once.
pub open spec fn is_permutation(s: Seq<usize>) -> bool {
    &&& s.len() == POINT_COUNT
    &&& forall|i: int| 0 <= i < s.len() ==> s[i] < POINT_COUNT
    &&& s.no_duplicates()
}

/// The numbers 0 to 255 in order.
pub open spec fn identity() -> Seq<usize> {
    Seq::new(POINT_COUNT as nat, |i: int| i as usize)
}

/// Every rearrangement of the numbers 0 to 255 is a permutation table.
proof fn lemma_rearranged_identity(s: Seq<usize>)
    requires
        s.to_multiset() == identity().to_multiset(),
    ensures
        is_permutation(s),
{
    let id = identity();
    vstd::seq_lib::to_multiset_len(s);
    vstd::seq_lib::to_multiset_len(id);
    assert(id.no_duplicates());
    id.lemma_multiset_has_no_duplicates();
    s.lemma_multiset_has_no_duplicates_conv();
    assert forall|i: int| 0 <= i < s.len() implies s[i] < POINT_COUNT by {
        assert(s.contains(s[i]));
        vstd::seq_lib::to_multiset_contains(s, s[i]);
        vstd::seq_lib::to_multiset_contains(id, s[i]);
        let j = choose|j: int| 0 <= j < id.len() && id[j] == s[i];
    }
}

/// The three permutation tables of a noise lattice.
pub struct Perlin {
    permx: Vec<usize>,
    permy: Vec<usize>,
    permz: Vec<usize>,
}

impl Perlin {
    #[verifier::type_invariant]
    spec fn inv(self) -> bool {
        &&& is_permutation(self.permx@)
        &&& is_permutation(self.permy@)
        &&& is_permutation(self.permz@)
    }

    /// The table for the x axis.
    pub closed spec fn x_table(self) -> Seq<usize> {
        self.permx@
    }

    /// The table for the y axis.
    pub closed spec fn y_table(self) -> Seq<usize> {
        self.permy@
    }

    /// The table for the z axis.
    pub closed spec fn z_table(self) -> Seq<usize> {
        self.permz@
    }

    /// The number of the gradient at the lattice point `(i, j, k)`.
    pub open spec fn gradient_at(self, i: int, j: int, k: int) -> usize {
        self.x_table()[i % 256] ^ self.y_table()[j % 256] ^ self.z_table()[k % 256]
    }

    /// The gradient numbers at the eight corners of the lattice cell whose
    /// lowest corner is `(i, j, k)`. The corner that lies `di`, `dj` and
    /// `dk` steps along the axes, each 0 or 1, stands at `4 * di + 2 * dj + dk`.
    pub open spec fn cell_at(self, i: int, j: int, k: int) -> Seq<usize> {
        Seq::new(
            8,
            |c: int| self.gradient_at(i + c / 4, j + (c / 2) % 2, k + c % 2),
        )
    }

    /// Makes a lattice with three tables shuffled at random.
    pub fn new() -> (perlin: Perlin)
        ensures
            is_permutation(perlin.x_table()),
            is_permutation(perlin.y_table()),
            is_permutation(perlin.z_table()),
    {
        let mut rng = rand::thread_rng();
        let mut permx = Perlin::ascending();
        shuffle(&mut permx, &mut rng);
        let mut permy = Perlin::ascending();
        shuffle(&mut permy, &mut rng);
        let mut permz = Perlin::ascending();
        shuffle(&mut permz, &mut rng);
        proof {
            lemma_rearranged_identity(permx@);
            lemma_rearranged_identity(permy@);
            lemma_rearranged_identity(permz@);
        }
        Perlin { permx, permy, permz }
    }

    /// Makes a lattice of the three given tables, if each of them is a
    /// permutation of the numbers 0 to 255.
    pub fn from_tables(permx: Vec<usize>, permy: Vec<usize>, permz: Vec<usize>) -> (perlin: Option<
        Perlin,
    >)
        ensures
            perlin is Some <==> is_permutation(permx@) && is_permutation(permy@) && is_permutation(
                permz@,
            ),
            perlin matches Some(p) ==> p.x_table() == permx@ && p.y_table() == permy@
                && p.z_table() == permz@,
    {
        if Perlin::check(&permx) && Perlin::check(&permy) && Perlin::check(&permz) {
            Some(Perlin { permx, permy, permz })
        } else {
            None
        }
    }

    /// Returns the three tables, for the x, y and z axis. Each is a
    /// permutation of the numbers 0 to 255.
    pub fn tables(&self) -> (t: (&Vec<usize>, &Vec<usize>, &Vec<usize>))
        ensures
            t.0@ == self.x_table(),
            t.1@ == self.y_table(),
            t.2@ == self.z_table(),
            is_permutation(t.0@),
            is_permutation(t.1@),
            is_permutation(t.2@),
    {
        proof {
            use_type_invariant(self);
        }
        (&self.permx, &self.permy, &self.permz)
    }

    /// Returns the number of the gradient at the lattice point `(i, j, k)`.
    pub fn gradient_index(&self, i: i32, j: i32, k: i32) -> (g: usize)
        ensures
            g == self.gradient_at(i as int, j as int, k as int),
            g < POINT_COUNT,
    {
        proof {
            use_type_invariant(self);
        }
        let xi = Perlin::wrap(i);
        let yi = Perlin::wrap(j);
        let zi = Perlin::wrap(k);
        let a = self.permx[xi];
        let b = self.permy[yi];
        let c = self.permz[zi];
        assert(a ^ b ^ c < 256) by (bit_vector)
            requires
                a < 256,
                b < 256,
                c < 256,
        ;
        a ^ b ^ c
    }

    /// Returns the gradient numbers at the eight corners of the lattice cell
    /// whose lowest corner is `(i, j, k)`.
    pub fn corners(&self, i: i32, j: i32, k: i32) -> (cell: Vec<usize>)
        ensures
            cell@ == self.cell_at(i as int, j as int, k as int),
            forall|c: int| 0 <= c < 8 ==> cell[c] < POINT_COUNT,
    {
        let mut cell: Vec<usize> = Vec::new();
        let mut c: usize = 0;
        while c < 8
            invariant
                c <= 8,
                cell@ == self.cell_at(i as int, j as int, k as int).take(c as int),
                forall|d: int| 0 <= d < c ==> cell[d] < POINT_COUNT,
            decreases 8 - c,
        {
            let di: i32 = if c / 4 == 1 { 1 } else { 0 };
            let dj: i32 = if (c / 2) % 2 == 1 { 1 } else { 0 };
            let dk: i32 = if c % 2 == 1 { 1 } else { 0 };
            let g = self.gradient_index(
                i.wrapping_add(di),
                j.wrapping_add(dj),
                k.wrapping_add(dk),
            );
            proof {
                Perlin::lemma_wrapping_step(i, di);
                Perlin::lemma_wrapping_step(j, dj);
                Perlin::lemma_wrapping_step(k, dk);
            }
            cell.push(g);
            assert(cell@ == self.cell_at(i as int, j as int, k as int).take(c + 1));
            c = c + 1;
        }
        assert(cell@ == self.cell_at(i as int, j as int, k as int));
        cell
    }

    /// A step that wraps around the range of `i32` lands on the same table
    /// entry as the step itself.
    proof fn lemma_wrapping_step(i: i32, d: i32)
        requires
            0 <= d <= 1,
        ensures
            (i.wrapping_add(d) as int) % 256 == (i + d) % 256,
    {
        if i + d > i32::MAX {
            assert(i == i32::MAX && d == 1);
            assert(i.wrapping_add(d) == i32::MIN);
        }
    }

    /// Reduces a lattice coordinate modulo 256.
    fn wrap(i: i32) -> (r: usize)
        ensures
            r == (i as int) % 256,
            r < POINT_COUNT,
    {
        let m: i32 = i & 255;
        assert(0 <= m < 256 && m == i % 256) by (bit_vector)
            requires
                m == i & 255,
        ;
        m as usize
    }

    /// The table that holds the numbers 0 to 255 in order.
    fn ascending() -> (table: Vec<usize>)
        ensures
            table@ == identity(),
    {
        let mut table: Vec<usize> = Vec::new();
        let mut i: usize = 0;
        while i < POINT_COUNT
            invariant
                i <= POINT_COUNT,
                table@ == identity().take(i as int),
            decreases POINT_COUNT - i,
        {
            table.push(i);
            assert(table@ == identity().take(i + 1));
            i = i + 1;
        }
        assert(table@ == identity());
        table
    }

    /// Says whether `table` is a permutation of the numbers 0 to 255.
    fn check(table: &Vec<usize>) -> (ok: bool)
        ensures
            ok == is_permutation(table@),
    {
        if table.len() != POINT_COUNT {
            return false;
        }
        let mut seen: Vec<bool> = Vec::new();
        let mut n: usize = 0;
        while n < POINT_COUNT
            invariant
                n <= POINT_COUNT,
                seen.len() == n,
                forall|v: int| 0 <= v < n ==> !seen[v],
            decreases POINT_COUNT - n,
        {
            seen.push(false);
            n = n + 1;
        }
        let mut i: usize = 0;
        while i < table.len()
            invariant
                i <= table.len(),
                table.len() == POINT_COUNT,
                seen.len() == POINT_COUNT,
                forall|p: int| 0 <= p < i ==> table[p] < POINT_COUNT,
                forall|p: int, q: int| 0 <= p < q < i ==> table[p] != table[q],
                forall|v: int| 0 <= v < POINT_COUNT ==> (seen[v] <==> exists|p: int|
                    0 <= p < i && table[p] == v),
            decreases table.len() - i,
        {
            let v = table[i];
            if v >= POINT_COUNT {
                return false;
            }
            if seen[v] {
                proof {
                    let p = choose|p: int| 0 <= p < i && table[p] == v;
                    assert(table@[p] == table@[i as int]);
                }
                return false;
            }
            seen.set(v, true);
            i = i + 1;
        }
        true
    }
}

} // verus!
