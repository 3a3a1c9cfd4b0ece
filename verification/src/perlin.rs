use crate::util::random_below;
use crate::witness::witness;
use crate::vec3::Vec3;
use vstd::prelude::*;
use vstd::seq_lib::*;

verus! {

/// How many gradients, and how many entries to a permutation table.
pub const MAX_PERLIN_PERM: usize = 256;

/// The tables of a gradient noise: 256 gradient vectors, and for each axis a
/// permutation of the numbers from 0 to 255.
#[derive(Debug)]
pub struct Perlin {
    ranvec: Vec<Vec3>,
    perm_x: Vec<i64>,
    perm_y: Vec<i64>,
    perm_z: Vec<i64>,
}

/// What a noise is: its four tables.
pub struct PerlinView {
    pub ranvec: Seq<Vec3>,
    pub perm_x: Seq<i64>,
    pub perm_y: Seq<i64>,
    pub perm_z: Seq<i64>,
}

/// The numbers from 0 to 255 in order.
pub open spec fn identity_table() -> Seq<i64> {
    Seq::new(256, |i: int| i as i64)
}

/// Whether the table holds each number from 0 to 255 once.
pub open spec fn is_perm_table(p: Seq<i64>) -> bool {
    &&& p.len() == 256
    &&& p.to_multiset() == identity_table().to_multiset()
}

/// The place in the gradient table that belongs to a lattice point: the
/// exclusive or of the three tables' entries at the low bytes of its coordinates.
pub open spec fn corner_index(
    perm_x: Seq<i64>,
    perm_y: Seq<i64>,
    perm_z: Seq<i64>,
    i: i64,
    j: i64,
    k: i64,
) -> int {
    (perm_x[(i & 255) as int] ^ perm_y[(j & 255) as int] ^ perm_z[(k & 255) as int]) as int
}

/// The table with the entries at two places exchanged.
pub open spec fn swapped(s: Seq<i64>, i: int, j: int) -> Seq<i64> {
    s.update(i, s[j]).update(j, s[i])
}

/// Whether `targets` names, for each place of a table of `len` entries but
/// the last, a partner at or below that place.
pub open spec fn valid_targets(targets: Seq<usize>, len: int) -> bool {
    &&& targets.len() == len - 1
    &&& forall|j: int| 0 <= j < targets.len() ==> #[trigger] targets[j] <= j
}

/// The table after the places from the last but one down to `from` have
/// changed entries with their partners, the higher places first.
pub open spec fn shuffled(s: Seq<i64>, targets: Seq<usize>, from: int) -> Seq<i64>
    decreases s.len() - from,
{
    if from >= s.len() - 1 || from < 0 {
        s
    } else {
        swapped(shuffled(s, targets, from + 1), from, targets[from] as int)
    }
}

/// Every entry of a permutation table lies between 0 and 255.
pub proof fn lemma_perm_table_in_range(p: Seq<i64>, i: int)
    requires
        is_perm_table(p),
        0 <= i < 256,
    ensures
        0 <= p[i] < 256,
{
    let id = identity_table();
    assert(p.contains(p[i]));
    to_multiset_contains(p, p[i]);
    to_multiset_contains(id, p[i]);
    let k = choose|k: int| 0 <= k < id.len() && id[k] == p[i];
    assert(id[k] == k as i64);
}

/// The eight corners of the lattice cell at `(i, j, k)`, in the order in
/// which the noise looks at them: the last coordinate changes first.
pub open spec fn cell_corners(i: i64, j: i64, k: i64) -> Seq<(i64, i64, i64)> {
    seq![
        (i, j, k),
        (i, j, (k + 1) as i64),
        (i, (j + 1) as i64, k),
        (i, (j + 1) as i64, (k + 1) as i64),
        ((i + 1) as i64, j, k),
        ((i + 1) as i64, j, (k + 1) as i64),
        ((i + 1) as i64, (j + 1) as i64, k),
        ((i + 1) as i64, (j + 1) as i64, (k + 1) as i64),
    ]
}

impl PerlinView {
    /// Whether the four tables have their sizes and the three permutation
    /// tables are permutations.
    pub open spec fn wf(self) -> bool {
        &&& self.ranvec.len() == 256
        &&& is_perm_table(self.perm_x)
        &&& is_perm_table(self.perm_y)
        &&& is_perm_table(self.perm_z)
    }

    /// The place in the gradient table that belongs to the lattice point `(i, j, k)`.
    pub open spec fn corner_index(self, i: i64, j: i64, k: i64) -> int {
        corner_index(self.perm_x, self.perm_y, self.perm_z, i, j, k)
    }
}

impl View for Perlin {
    type V = PerlinView;

    closed spec fn view(&self) -> PerlinView {
        PerlinView {
            ranvec: self.ranvec@,
            perm_x: self.perm_x@,
            perm_y: self.perm_y@,
            perm_z: self.perm_z@,
        }
    }
}

impl Perlin {
    #[verifier::type_invariant]
    closed spec fn inv(self) -> bool {
        self@.wf()
    }

    /// A noise over the given gradients, with three fresh random
    /// permutations; nothing where the gradients are not 256.
    pub fn new(ranvec: Vec<Vec3>) -> (p: Option<Perlin>)
        ensures
            p is Some <==> ranvec@.len() == 256,
            p is Some ==> p.unwrap()@.ranvec == ranvec@ && p.unwrap()@.wf(),
    {
        if ranvec.len() != MAX_PERLIN_PERM {
            return None;
        }
        let perm_x = Perlin::perlin_generate_perm();
        let perm_y = Perlin::perlin_generate_perm();
        let perm_z = Perlin::perlin_generate_perm();
        Some(Perlin { ranvec, perm_x, perm_y, perm_z })
    }

    /// A noise over the given tables; nothing where the gradients are not
    /// 256 or a permutation table does not hold each number from 0 to 255 once.
    pub fn from_tables(
        ranvec: Vec<Vec3>,
        perm_x: Vec<i64>,
        perm_y: Vec<i64>,
        perm_z: Vec<i64>,
    ) -> (p: Option<Perlin>)
        ensures
            p is Some <==> (PerlinView {
                ranvec: ranvec@,
                perm_x: perm_x@,
                perm_y: perm_y@,
                perm_z: perm_z@,
            }).wf(),
            p is Some ==> p.unwrap()@ == (PerlinView {
                ranvec: ranvec@,
                perm_x: perm_x@,
                perm_y: perm_y@,
                perm_z: perm_z@,
            }),
    {
        if ranvec.len() == MAX_PERLIN_PERM && is_permutation(&perm_x) && is_permutation(&perm_y)
            && is_permutation(&perm_z) {
            Some(Perlin { ranvec, perm_x, perm_y, perm_z })
        } else {
            None
        }
    }

    /// The gradients.
    pub fn ranvec(&self) -> (t: &Vec<Vec3>)
        ensures
            t@ == self@.ranvec,
    {
        &self.ranvec
    }

    /// The permutation for the first coordinate.
    pub fn perm_x(&self) -> (t: &Vec<i64>)
        ensures
            t@ == self@.perm_x,
    {
        &self.perm_x
    }

    /// The permutation for the second coordinate.
    pub fn perm_y(&self) -> (t: &Vec<i64>)
        ensures
            t@ == self@.perm_y,
    {
        &self.perm_y
    }

    /// The permutation for the third coordinate.
    pub fn perm_z(&self) -> (t: &Vec<i64>)
        ensures
            t@ == self@.perm_z,
    {
        &self.perm_z
    }

    /// Shuffles the table in place: from the last place but one down to the
    /// first, each entry changes places with one drawn at random from the
    /// places up to its own. The table keeps its entries.
    pub fn permute(p: &mut Vec<i64>)
        requires
            old(p)@.len() >= 1,
        ensures
            final(p)@.len() == old(p)@.len(),
            final(p)@.to_multiset() == old(p)@.to_multiset(),
            exists|targets: Seq<usize>| #[trigger]
                witness(targets) && valid_targets(targets, old(p)@.len() as int) && final(p)@
                    == shuffled(old(p)@, targets, 0),
    {
        let n: usize = p.len() - 1;
        let mut targets: Vec<usize> = Vec::with_capacity(n);
        let mut k: usize = 0;
        while k < n
            invariant
                k <= n,
                targets@.len() == k,
                forall|j: int| 0 <= j < k ==> targets@[j] == 0,
            decreases n - k,
        {
            targets.push(0);
            k += 1;
        }
        let mut i: usize = n;
        while i > 0
            invariant
                i <= n,
                targets@.len() == n,
                forall|j: int| 0 <= j < n ==> #[trigger] targets@[j] <= j,
            decreases i,
        {
            i -= 1;
            let drawn: usize = random_below(i + 1);
            targets[i] = drawn;
        }
        proof {
            assert(witness(targets@));
        }
        Perlin::permute_with(p, &targets);
    }

    /// Shuffles the table in place as `permute` does, with the partners
    /// given: from the last place but one down to the first, the entry at
    /// place `i` changes places with the entry at place `targets[i]`.
    pub fn permute_with(p: &mut Vec<i64>, targets: &Vec<usize>)
        requires
            old(p)@.len() >= 1,
            valid_targets(targets@, old(p)@.len() as int),
        ensures
            final(p)@.len() == old(p)@.len(),
            final(p)@.to_multiset() == old(p)@.to_multiset(),
            final(p)@ == shuffled(old(p)@, targets@, 0),
    {
        let mut i: usize = p.len() - 1;
        while i > 0
            invariant
                i < p@.len(),
                p@.len() == old(p)@.len(),
                valid_targets(targets@, old(p)@.len() as int),
                p@.to_multiset() == old(p)@.to_multiset(),
                p@ == shuffled(old(p)@, targets@, i as int),
            decreases i,
        {
            i -= 1;
            let target: usize = targets[i];
            let ghost before = p@;
            let a: i64 = p[i];
            let b: i64 = p[target];
            p[i] = b;
            p[target] = a;
            proof {
                let mid = before.update(i as int, b);
                to_multiset_update(before, i as int, b);
                to_multiset_update(mid, target as int, a);
                assert(p@ =~= mid.update(target as int, a));
                assert(mid[target as int] == b);
                assert(p@.to_multiset() =~= before.to_multiset()) by {
                    assert(before.to_multiset().count(a) > 0) by {
                        to_multiset_contains(before, a);
                        assert(before[i as int] == a);
                    }
                    assert(before.to_multiset().insert(b).remove(a).insert(a).remove(b)
                        =~= before.to_multiset());
                }
                assert(p@ == swapped(before, i as int, target as int));
            }
        }
    }

    /// A random permutation of the numbers from 0 to 255.
    pub fn perlin_generate_perm() -> (p: Vec<i64>)
        ensures
            is_perm_table(p@),
            exists|targets: Seq<usize>| #[trigger]
                witness(targets) && valid_targets(targets, 256) && p@ == shuffled(
                    identity_table(),
                    targets,
                    0,
                ),
    {
        let mut p: Vec<i64> = Vec::with_capacity(MAX_PERLIN_PERM);
        let mut i: usize = 0;
        while i < MAX_PERLIN_PERM
            invariant
                i <= 256,
                p@.len() == i,
                forall|k: int| 0 <= k < i ==> p@[k] == k as i64,
            decreases 256 - i,
        {
            p.push(i as i64);
            i += 1;
        }
        proof {
            assert(p@ =~= identity_table());
        }
        Perlin::permute(&mut p);
        p
    }

    /// The gradients at the eight corners of the lattice cell at `(i, j, k)`,
    /// the last coordinate changing first.
    pub fn cell(&self, i: i64, j: i64, k: i64) -> (c: Vec<Vec3>)
        requires
            i < i64::MAX,
            j < i64::MAX,
            k < i64::MAX,
        ensures
            c@.len() == 8,
            forall|n: int|
                0 <= n < 8 ==> #[trigger] c@[n] == self@.ranvec[self@.corner_index(
                    cell_corners(i, j, k)[n].0,
                    cell_corners(i, j, k)[n].1,
                    cell_corners(i, j, k)[n].2,
                )],
    {
        let mut c: Vec<Vec3> = Vec::with_capacity(8);
        c.push(self.corner(i, j, k));
        c.push(self.corner(i, j, k + 1));
        c.push(self.corner(i, j + 1, k));
        c.push(self.corner(i, j + 1, k + 1));
        c.push(self.corner(i + 1, j, k));
        c.push(self.corner(i + 1, j, k + 1));
        c.push(self.corner(i + 1, j + 1, k));
        c.push(self.corner(i + 1, j + 1, k + 1));
        c
    }

    /// The gradient that belongs to the lattice point `(i, j, k)`.
    pub fn corner(&self, i: i64, j: i64, k: i64) -> (g: Vec3)
        ensures
            0 <= self@.corner_index(i, j, k) < 256,
            g == self@.ranvec[self@.corner_index(i, j, k)],
    {
        proof {
            use_type_invariant(self);
        }
        let xi: i64 = i & 255;
        let yi: i64 = j & 255;
        let zi: i64 = k & 255;
        assert(0 <= xi < 256) by (bit_vector)
            requires
                xi == i & 255,
        ;
        assert(0 <= yi < 256) by (bit_vector)
            requires
                yi == j & 255,
        ;
        assert(0 <= zi < 256) by (bit_vector)
            requires
                zi == k & 255,
        ;
        let a: i64 = self.perm_x[xi as usize];
        let b: i64 = self.perm_y[yi as usize];
        let c: i64 = self.perm_z[zi as usize];
        proof {
            lemma_perm_table_in_range(self.perm_x@, xi as int);
            lemma_perm_table_in_range(self.perm_y@, yi as int);
            lemma_perm_table_in_range(self.perm_z@, zi as int);
        }
        let at: i64 = a ^ b ^ c;
        assert(0 <= at < 256) by (bit_vector)
            requires
                at == a ^ b ^ c,
                0 <= a < 256,
                0 <= b < 256,
                0 <= c < 256,
        ;
        self.ranvec[at as usize]
    }
}

/// How often `v` stands among the first `n` entries of `s`.
pub open spec fn count_in(s: Seq<i64>, v: i64, n: int) -> int
    decreases n,
{
    if n <= 0 {
        0
    } else {
        count_in(s, v, n - 1) + if s[n - 1] == v {
            1int
        } else {
            0int
        }
    }
}

/// Counting the entries one by one is counting them in the multiset.
proof fn lemma_count_in_is_multiset_count(s: Seq<i64>, v: i64, n: int)
    requires
        0 <= n <= s.len(),
    ensures
        count_in(s, v, n) == s.take(n).to_multiset().count(v),
    decreases n,
{
    broadcast use group_to_multiset_ensures;

    if n > 0 {
        lemma_count_in_is_multiset_count(s, v, n - 1);
        assert(s.take(n) =~= s.take(n - 1).push(s[n - 1]));
    } else {
        assert(s.take(0) =~= Seq::<i64>::empty());
    }
}

/// Each number from 0 to 255 stands once in the table of the numbers in order.
proof fn lemma_identity_counts(v: i64)
    ensures
        identity_table().to_multiset().count(v) == if 0 <= v < 256 {
            1int
        } else {
            0int
        },
{
    let id = identity_table();
    lemma_identity_count_upto(v, 256);
    lemma_count_in_is_multiset_count(id, v, 256);
    assert(id.take(256) =~= id);
}

/// Among the first `n` numbers in order, `v` stands once if it is below `n`, and else not.
proof fn lemma_identity_count_upto(v: i64, n: int)
    requires
        0 <= n <= 256,
    ensures
        count_in(identity_table(), v, n) == if 0 <= v < n {
            1int
        } else {
            0int
        },
    decreases n,
{
    if n > 0 {
        lemma_identity_count_upto(v, n - 1);
    }
}

/// Whether the table holds each number from 0 to 255 once.
pub fn is_permutation(p: &Vec<i64>) -> (ok: bool)
    ensures
        ok == is_perm_table(p@),
{
    if p.len() != MAX_PERLIN_PERM {
        return false;
    }
    let mut seen: Vec<bool> = Vec::with_capacity(MAX_PERLIN_PERM);
    let mut k: usize = 0;
    while k < MAX_PERLIN_PERM
        invariant
            k <= 256,
            seen@.len() == k,
            forall|j: int| 0 <= j < k ==> !seen@[j],
        decreases 256 - k,
    {
        seen.push(false);
        k += 1;
    }
    let mut i: usize = 0;
    while i < MAX_PERLIN_PERM
        invariant
            i <= 256,
            p@.len() == 256,
            seen@.len() == 256,
            forall|j: int| 0 <= j < i ==> 0 <= #[trigger] p@[j] < 256,
            forall|v: i64|
                0 <= v < 256 ==> #[trigger] count_in(p@, v, i as int) == if seen@[v as int] {
                    1int
                } else {
                    0int
                },
        decreases 256 - i,
    {
        let v: i64 = p[i];
        if v < 0 || v >= 256 {
            proof {
                // an entry outside the range stands in the table but not among the numbers in order
                lemma_identity_counts(v);
                to_multiset_contains(p@, v);
                assert(p@.contains(v));
            }
            return false;
        }
        if seen[v as usize] {
            proof {
                // an entry that stands twice
                lemma_identity_counts(v);
                assert(count_in(p@, v, i as int) == 1);
                assert(count_in(p@, v, i + 1) == 2);
                lemma_count_in_grows(p@, v, i + 1, 256);
                lemma_count_in_is_multiset_count(p@, v, 256);
                assert(p@.take(256) =~= p@);
                assert(p@.to_multiset().count(v) >= 2);
            }
            return false;
        }
        let ghost seen_before = seen@;
        seen[v as usize] = true;
        proof {
            assert forall|w: i64| 0 <= w < 256 implies #[trigger] count_in(p@, w, i + 1) == if seen@[w as int] {
                1int
            } else {
                0int
            } by {
                assert(count_in(p@, w, i as int) == if seen_before[w as int] {
                    1int
                } else {
                    0int
                });
            }
        }
        i += 1;
    }
    proof {
        assert forall|v: i64| p@.to_multiset().count(v) == identity_table().to_multiset().count(
            v,
        ) by {
            lemma_identity_counts(v);
            lemma_count_in_is_multiset_count(p@, v, 256);
            assert(p@.take(256) =~= p@);
            if 0 <= v < 256 {
                assert forall|w: i64| 0 <= w < 256 implies #[trigger] count_in(p@, w, 256) <= 1 by {}
                lemma_all_seen(p@, v);
            } else {
                lemma_count_in_absent(p@, v, 256);
            }
        }
        assert(p@.to_multiset() =~= identity_table().to_multiset());
    }
    true
}

/// The count of an entry does not fall as more of the table is looked at.
proof fn lemma_count_in_grows(s: Seq<i64>, v: i64, n: int, m: int)
    requires
        0 <= n <= m,
    ensures
        count_in(s, v, n) <= count_in(s, v, m),
    decreases m - n,
{
    if n < m {
        lemma_count_in_grows(s, v, n, m - 1);
    }
}

/// A number that no entry equals is counted nowhere.
proof fn lemma_count_in_absent(s: Seq<i64>, v: i64, n: int)
    requires
        0 <= n <= s.len(),
        forall|j: int| 0 <= j < n ==> s[j] != v,
    ensures
        count_in(s, v, n) == 0,
    decreases n,
{
    if n > 0 {
        lemma_count_in_absent(s, v, n - 1);
    }
}

/// The sum of the counts of the numbers below `upto` among the first `n` entries.
pub open spec fn counted(s: Seq<i64>, n: int, upto: int) -> int
    decreases upto,
{
    if upto <= 0 {
        0
    } else {
        counted(s, n, upto - 1) + count_in(s, (upto - 1) as i64, n)
    }
}

/// Entries that all lie below 256 are counted once each by the counts of the numbers below 256.
proof fn lemma_counted_is_length(s: Seq<i64>, n: int)
    requires
        0 <= n <= s.len(),
        forall|j: int| 0 <= j < n ==> 0 <= #[trigger] s[j] < 256,
    ensures
        counted(s, n, 256) == n,
    decreases n,
{
    if n > 0 {
        lemma_counted_is_length(s, n - 1);
        lemma_counted_step(s, n, 256);
    } else {
        lemma_counted_of_nothing(s, 256);
    }
}

/// No entry, no count.
proof fn lemma_counted_of_nothing(s: Seq<i64>, upto: int)
    ensures
        counted(s, 0, upto) == 0,
    decreases upto,
{
    if upto > 0 {
        lemma_counted_of_nothing(s, upto - 1);
    }
}

/// One more entry adds one to the sum of counts if it lies below `upto`, and else nothing.
proof fn lemma_counted_step(s: Seq<i64>, n: int, upto: int)
    requires
        0 < n <= s.len(),
        0 <= upto <= 256,
    ensures
        counted(s, n, upto) == counted(s, n - 1, upto) + if 0 <= s[n - 1] < upto {
            1int
        } else {
            0int
        },
    decreases upto,
{
    if upto > 0 {
        lemma_counted_step(s, n, upto - 1);
    }
}

/// Counts that are at most one each and add up to `upto` are one each.
proof fn lemma_counts_are_one(s: Seq<i64>, n: int, upto: int, v: int)
    requires
        0 <= upto <= 256,
        forall|w: i64| 0 <= w < 256 ==> #[trigger] count_in(s, w, n) <= 1,
        counted(s, n, upto) == upto,
        0 <= v < upto,
    ensures
        count_in(s, v as i64, n) == 1,
    decreases upto,
{
    lemma_counted_at_most(s, n, upto - 1);
    if v < upto - 1 {
        lemma_counts_are_one(s, n, upto - 1, v);
    }
}

/// Counts that are at most one each add up to at most their number.
proof fn lemma_counted_at_most(s: Seq<i64>, n: int, upto: int)
    requires
        0 <= upto <= 256,
        forall|w: i64| 0 <= w < 256 ==> #[trigger] count_in(s, w, n) <= 1,
    ensures
        counted(s, n, upto) <= upto,
    decreases upto,
{
    if upto > 0 {
        lemma_counted_at_most(s, n, upto - 1);
    }
}

/// In a table of 256 entries below 256 of which none stands twice, every number below 256 stands once.
proof fn lemma_all_seen(s: Seq<i64>, v: i64)
    requires
        s.len() == 256,
        forall|j: int| 0 <= j < 256 ==> 0 <= #[trigger] s[j] < 256,
        forall|w: i64| 0 <= w < 256 ==> #[trigger] count_in(s, w, 256) <= 1,
        0 <= v < 256,
    ensures
        count_in(s, v, 256) == 1,
{
    lemma_counted_is_length(s, 256);
    lemma_counts_are_one(s, 256, 256, v as int);
}

impl Clone for Perlin {
    /// A copy with the same tables.
    fn clone(&self) -> (res: Perlin)
        ensures
            res@ == self@,
    {
        proof {
            use_type_invariant(self);
        }
        let ranvec = self.ranvec.clone();
        let perm_x = self.perm_x.clone();
        let perm_y = self.perm_y.clone();
        let perm_z = self.perm_z.clone();
        proof {
            assert(ranvec@ =~= self.ranvec@);
            assert(perm_x@ =~= self.perm_x@);
            assert(perm_y@ =~= self.perm_y@);
            assert(perm_z@ =~= self.perm_z@);
        }
        Perlin { ranvec, perm_x, perm_y, perm_z }
    }
}

} // verus!
