//! Polyomino tiles: a base shape together with its deduplicated set of
//! rotation and reflection variants (the dihedral orbit of the shape).

use vstd::prelude::*;

use crate::grid::{count_true, lemma_rotate_count, lemma_rotate_four, lemma_rotate_transpose, lemma_transpose_count, lemma_transpose_twice, spec_rotate_cw, spec_transpose, Grid, GridModel};

verus! {

/// The grid holds at least one filled cell.
pub open spec fn has_filled(g: GridModel) -> bool {
    exists|i: int, j: int| g.in_bounds(i, j) && g.cell(i, j)
}

/// `g` is one of the eight rotation/reflection images of `base`.
pub open spec fn in_orbit(g: GridModel, base: GridModel) -> bool {
    ||| g == base
    ||| g == spec_rotate_cw(base)
    ||| g == spec_rotate_cw(spec_rotate_cw(base))
    ||| g == spec_rotate_cw(spec_rotate_cw(spec_rotate_cw(base)))
    ||| g == spec_transpose(base)
    ||| g == spec_rotate_cw(spec_transpose(base))
    ||| g == spec_rotate_cw(spec_rotate_cw(spec_transpose(base)))
    ||| g == spec_rotate_cw(spec_rotate_cw(spec_rotate_cw(spec_transpose(base))))
}

/// Some grid of the sequence has `g` as its model.
pub open spec fn grid_in(s: Seq<Grid>, g: GridModel) -> bool {
    exists|k: int| 0 <= k < s.len() && (#[trigger] s[k])@ == g
}

proof fn lemma_grid_in_preserved(a: Seq<Grid>, b: Seq<Grid>, g: GridModel)
    requires
        grid_in(a, g),
        a.len() <= b.len(),
        forall|k: int| 0 <= k < a.len() ==> b[k] == a[k],
    ensures
        grid_in(b, g),
{
    let k = choose|k: int| 0 <= k < a.len() && (#[trigger] a[k])@ == g;
    assert(b[k]@ == g);
}

/// Mathematical model of a tile: its base shape and its variant shapes.
pub ghost struct TileModel {
    pub base: GridModel,
    pub variants: Seq<GridModel>,
}

impl TileModel {
    /// Some variant equals `g`.
    pub open spec fn contains_variant(self, g: GridModel) -> bool {
        exists|k: int| 0 <= k < self.variants.len() && self.variants[k] == g
    }

    /// The base shape is a nonempty well-formed grid, and the variants are
    /// exactly the orbit of the base, without duplicates.
    pub open spec fn wf(self) -> bool {
        &&& self.base.wf()
        &&& self.base.rows >= 1
        &&& self.base.cols >= 1
        &&& has_filled(self.base)
        &&& forall|k: int|
            0 <= k < self.variants.len() ==> (#[trigger] self.variants[k]).wf() && in_orbit(
                self.variants[k],
                self.base,
            )
        &&& forall|k1: int, k2: int|
            0 <= k1 < k2 < self.variants.len() ==> self.variants[k1] != self.variants[k2]
        &&& forall|g: GridModel| #[trigger] in_orbit(g, self.base) ==> self.contains_variant(g)
    }
}

/// A polyomino tile: the base shape and its deduplicated orientation variants.
#[derive(Debug)]
pub struct Tile {
    pub base: Grid,
    pub all_rotations: Vec<Grid>,
}

impl View for Tile {
    type V = TileModel;

    open spec fn view(&self) -> TileModel {
        TileModel { base: self.base@, variants: self.all_rotations@.map_values(|g: Grid| g@) }
    }
}

impl Clone for Tile {
    fn clone(&self) -> (res: Self)
        ensures
            res@ == self@,
    {
        let mut rotations: Vec<Grid> = Vec::new();
        let n = self.all_rotations.len();
        let mut k: usize = 0;
        while k < n
            invariant
                k <= n,
                n == self.all_rotations.len(),
                rotations.len() == k,
                forall|m: int| 0 <= m < k ==> (#[trigger] rotations@[m])@ == self.all_rotations@[m]@,
            decreases n - k,
        {
            rotations.push(self.all_rotations[k].clone());
            k = k + 1;
        }
        let res = Tile { base: self.base.clone(), all_rotations: rotations };
        proof {
            assert forall|m: int| 0 <= m < res@.variants.len() implies res@.variants[m]
                == self@.variants[m] by {
                assert(res@.variants[m] == rotations@[m]@);
                assert(self@.variants[m] == self.all_rotations@[m]@);
            }
            assert(res@.variants =~= self@.variants);
            assert(res@ =~= self@);
        }
        res
    }
}

/// Appends the grid unless a structurally equal grid is already present.
fn push_unique(v: &mut Vec<Grid>, g: Grid)
    requires
        g.wf(),
        forall|k: int| 0 <= k < old(v)@.len() ==> (#[trigger] old(v)@[k])@.wf(),
        forall|k1: int, k2: int| 0 <= k1 < k2 < old(v)@.len() ==> old(v)@[k1]@ != old(v)@[k2]@,
    ensures
        old(v)@.len() <= final (v)@.len() <= old(v)@.len() + 1,
        forall|k: int| 0 <= k < old(v)@.len() ==> final (v)@[k] == old(v)@[k],
        grid_in(final (v)@, g@),
        forall|k: int|
            old(v)@.len() <= k < final (v)@.len() ==> (#[trigger] final (v)@[k])@ == g@,
        forall|k: int| 0 <= k < final (v)@.len() ==> (#[trigger] final (v)@[k])@.wf(),
        forall|k1: int, k2: int|
            0 <= k1 < k2 < final (v)@.len() ==> final (v)@[k1]@ != final (v)@[k2]@,
{
    let n = v.len();
    let mut k: usize = 0;
    while k < n
        invariant
            g.wf(),
            k <= n,
            n == v@.len(),
            v == old(v),
            forall|m: int| 0 <= m < n ==> (#[trigger] v@[m])@.wf(),
            forall|m: int| 0 <= m < k ==> (#[trigger] v@[m])@ != g@,
            forall|k1: int, k2: int| 0 <= k1 < k2 < n ==> (v@[k1])@ != (v@[k2])@,
        decreases n - k,
    {
        if v[k].grid_eq(&g) {
            assert((v@[k as int])@ == g@);
            return ;
        }
        k = k + 1;
    }
    v.push(g);
    assert((v@[n as int])@ == g@);
    assert forall|k1: int, k2: int| 0 <= k1 < k2 < v@.len() implies (v@[k1])@ != (v@[k2])@ by {
        if k2 < n {
            assert((old(v)@[k1])@ != (old(v)@[k2])@);
        } else {
            assert((v@[k1])@ != g@);
        }
    }
}

impl Tile {
    /// Builds the tile for a base shape: the base itself, its three further
    /// quarter turns, and the four quarter turns of its transpose, with
    /// structural duplicates removed.  The base shape is always kept.
    pub fn new(base: Grid) -> (res: Tile)
        requires
            base.wf(),
            base@.rows >= 1,
            base@.cols >= 1,
            has_filled(base@),
        ensures
            res@.wf(),
            res@.base == base@,
            res@.contains_variant(base@),
            1 <= res@.variants.len() <= 8,
    {
        let r1 = base.rotate_cw();
        let r2 = r1.rotate_cw();
        let r3 = r2.rotate_cw();
        let t0 = base.transpose();
        let t1 = t0.rotate_cw();
        let t2 = t1.rotate_cw();
        let t3 = t2.rotate_cw();
        let mut variants: Vec<Grid> = Vec::new();
        push_unique(&mut variants, base.clone());
        proof {
            assert forall|k: int| 0 <= k < variants@.len() implies in_orbit(
                (#[trigger] variants@[k])@,
                base@,
            ) by {}
        }
        let ghost v1 = variants@;
        push_unique(&mut variants, r1);
        proof {
            lemma_grid_in_preserved(v1, variants@, base@);
            assert forall|k: int| 0 <= k < variants@.len() implies in_orbit(
                (#[trigger] variants@[k])@,
                base@,
            ) by {}
        }
        let ghost v2 = variants@;
        push_unique(&mut variants, r2);
        proof {
            lemma_grid_in_preserved(v2, variants@, base@);
            lemma_grid_in_preserved(v2, variants@, r1@);
            assert forall|k: int| 0 <= k < variants@.len() implies in_orbit(
                (#[trigger] variants@[k])@,
                base@,
            ) by {}
        }
        let ghost v3 = variants@;
        push_unique(&mut variants, r3);
        proof {
            lemma_grid_in_preserved(v3, variants@, base@);
            lemma_grid_in_preserved(v3, variants@, r1@);
            lemma_grid_in_preserved(v3, variants@, r2@);
            assert forall|k: int| 0 <= k < variants@.len() implies in_orbit(
                (#[trigger] variants@[k])@,
                base@,
            ) by {}
        }
        let ghost v4 = variants@;
        push_unique(&mut variants, t0);
        proof {
            lemma_grid_in_preserved(v4, variants@, base@);
            lemma_grid_in_preserved(v4, variants@, r1@);
            lemma_grid_in_preserved(v4, variants@, r2@);
            lemma_grid_in_preserved(v4, variants@, r3@);
            assert forall|k: int| 0 <= k < variants@.len() implies in_orbit(
                (#[trigger] variants@[k])@,
                base@,
            ) by {}
        }
        let ghost v5 = variants@;
        push_unique(&mut variants, t1);
        proof {
            lemma_grid_in_preserved(v5, variants@, base@);
            lemma_grid_in_preserved(v5, variants@, r1@);
            lemma_grid_in_preserved(v5, variants@, r2@);
            lemma_grid_in_preserved(v5, variants@, r3@);
            lemma_grid_in_preserved(v5, variants@, t0@);
            assert forall|k: int| 0 <= k < variants@.len() implies in_orbit(
                (#[trigger] variants@[k])@,
                base@,
            ) by {}
        }
        let ghost v6 = variants@;
        push_unique(&mut variants, t2);
        proof {
            lemma_grid_in_preserved(v6, variants@, base@);
            lemma_grid_in_preserved(v6, variants@, r1@);
            lemma_grid_in_preserved(v6, variants@, r2@);
            lemma_grid_in_preserved(v6, variants@, r3@);
            lemma_grid_in_preserved(v6, variants@, t0@);
            lemma_grid_in_preserved(v6, variants@, t1@);
            assert forall|k: int| 0 <= k < variants@.len() implies in_orbit(
                (#[trigger] variants@[k])@,
                base@,
            ) by {}
        }
        let ghost v7 = variants@;
        push_unique(&mut variants, t3);
        proof {
            lemma_grid_in_preserved(v7, variants@, base@);
            lemma_grid_in_preserved(v7, variants@, r1@);
            lemma_grid_in_preserved(v7, variants@, r2@);
            lemma_grid_in_preserved(v7, variants@, r3@);
            lemma_grid_in_preserved(v7, variants@, t0@);
            lemma_grid_in_preserved(v7, variants@, t1@);
            lemma_grid_in_preserved(v7, variants@, t2@);
            assert forall|k: int| 0 <= k < variants@.len() implies in_orbit(
                (#[trigger] variants@[k])@,
                base@,
            ) by {}
        }
        let ghost vs = variants@;
        let res = Tile { base, all_rotations: variants };
        proof {
            let m = res@;
            assert(m.base == base@);
            assert(m.variants.len() == vs.len());
            assert forall|k: int| 0 <= k < m.variants.len() implies (#[trigger] m.variants[k]).wf()
                && in_orbit(m.variants[k], m.base) by {
                assert(m.variants[k] == vs[k]@);
            }
            assert forall|k1: int, k2: int|
                0 <= k1 < k2 < m.variants.len() implies m.variants[k1] != m.variants[k2] by {
                assert(m.variants[k1] == vs[k1]@);
                assert(m.variants[k2] == vs[k2]@);
            }
            assert forall|g: GridModel| #[trigger] in_orbit(g, m.base) implies m.contains_variant(
                g,
            ) by {
                contains_from_grid_in(m, vs, base@);
                contains_from_grid_in(m, vs, r1@);
                contains_from_grid_in(m, vs, r2@);
                contains_from_grid_in(m, vs, r3@);
                contains_from_grid_in(m, vs, t0@);
                contains_from_grid_in(m, vs, t1@);
                contains_from_grid_in(m, vs, t2@);
                contains_from_grid_in(m, vs, t3@);
            }
            contains_from_grid_in(m, vs, base@);
            let k = choose|k: int| 0 <= k < m.variants.len() && m.variants[k] == base@;
            assert(m.variants.len() >= 1);
        }
        res
    }
}

proof fn contains_from_grid_in(t: TileModel, s: Seq<Grid>, g: GridModel)
    requires
        t.variants == s.map_values(|gr: Grid| gr@),
        grid_in(s, g),
    ensures
        t.contains_variant(g),
{
    let k = choose|k: int| 0 <= k < s.len() && (#[trigger] s[k])@ == g;
    assert(t.variants[k] == g);
}


/// A well-formed tile's variant count equals the number of distinct grids in
/// any duplicate-free listing of the orbit.
proof fn lemma_count_by_reps(t: TileModel, vs: Seq<GridModel>)
    requires
        t.wf(),
        forall|k: int| 0 <= k < vs.len() ==> in_orbit(#[trigger] vs[k], t.base),
        forall|k1: int, k2: int| 0 <= k1 < k2 < vs.len() ==> vs[k1] != vs[k2],
        forall|x: GridModel| #[trigger] in_orbit(x, t.base) ==> vs.contains(x),
    ensures
        t.variants.len() == vs.len(),
{
    assert(t.variants.no_duplicates()) by {
        assert forall|i: int, j: int|
            0 <= i < t.variants.len() && 0 <= j < t.variants.len() && i != j implies t.variants[i]
            != t.variants[j] by {
            if i < j {
                assert(t.variants[i] != t.variants[j]);
            } else {
                assert(t.variants[j] != t.variants[i]);
            }
        }
    }
    assert(vs.no_duplicates()) by {
        assert forall|i: int, j: int|
            0 <= i < vs.len() && 0 <= j < vs.len() && i != j implies vs[i] != vs[j] by {
            if i < j {
                assert(vs[i] != vs[j]);
            } else {
                assert(vs[j] != vs[i]);
            }
        }
    }
    t.variants.unique_seq_to_set();
    vs.unique_seq_to_set();
    assert(t.variants.to_set() =~= vs.to_set()) by {
        assert forall|x: GridModel| t.variants.to_set().contains(x) implies vs.to_set().contains(
            x,
        ) by {
            let idx = choose|idx: int| 0 <= idx < t.variants.len() && t.variants[idx] == x;
            assert(in_orbit(t.variants[idx], t.base));
            assert(vs.contains(x));
        }
        assert forall|x: GridModel| vs.to_set().contains(x) implies t.variants.to_set().contains(
            x,
        ) by {
            let idx = choose|idx: int| 0 <= idx < vs.len() && vs[idx] == x;
            assert(in_orbit(vs[idx], t.base));
            assert(t.contains_variant(x));
            let k = choose|k: int| 0 <= k < t.variants.len() && t.variants[k] == x;
            assert(t.variants.contains(x));
        }
    }
}

/// The variant set of a tile has 1, 2, 4 or 8 members: the dihedral orbit of
/// a shape always has one of these sizes, depending on the shape's symmetry.
pub proof fn lemma_variant_count(t: TileModel)
    requires
        t.wf(),
    ensures
        t.variants.len() == 1 || t.variants.len() == 2 || t.variants.len() == 4
            || t.variants.len() == 8,
{
    let g = t.base;
    let r1 = spec_rotate_cw(g);
    let r2 = spec_rotate_cw(r1);
    let r3 = spec_rotate_cw(r2);
    let t0 = spec_transpose(g);
    let t1 = spec_rotate_cw(t0);
    let t2 = spec_rotate_cw(t1);
    let t3 = spec_rotate_cw(t2);
    lemma_rotate_four(g);
    lemma_transpose_twice(g);
    lemma_rotate_transpose(g);
    assert(r1.wf() && r2.wf() && r3.wf() && t0.wf() && t1.wf() && t2.wf() && t3.wf());
    lemma_rotate_four(t0);
    lemma_rotate_transpose(r1);
    lemma_rotate_transpose(r2);
    lemma_rotate_transpose(r3);
    lemma_transpose_twice(r1);
    lemma_transpose_twice(r2);
    lemma_transpose_twice(r3);
    // The reflected variants written over the rotations:
    // t1 = r(t(g)) = t(r3), t2 = r(t(r3)) = t(r2), t3 = r(t(r2)) = t(r1).
    assert(t1 == spec_transpose(r3));
    assert(t2 == spec_transpose(r2)) by {
        assert(spec_rotate_cw(spec_transpose(r3)) == spec_transpose(
            spec_rotate_cw(spec_rotate_cw(spec_rotate_cw(r3))),
        ));
        assert(spec_rotate_cw(spec_rotate_cw(spec_rotate_cw(r3))) == r2);
    }
    assert(t3 == spec_transpose(r1)) by {
        assert(spec_rotate_cw(spec_transpose(r2)) == spec_transpose(
            spec_rotate_cw(spec_rotate_cw(spec_rotate_cw(r2))),
        ));
        assert(spec_rotate_cw(spec_rotate_cw(spec_rotate_cw(r2))) == r1);
    }

    if r1 == g {
        // Quarter-turn symmetric: every rotation is the shape itself.
        assert(r2 == g && r3 == g);
        assert(t1 == t0 && t2 == t0 && t3 == t0);
        if t0 == g {
            let vs = seq![g];
            assert(vs.contains(g)) by {
                assert(vs[0] == g);
            }
            assert forall|x: GridModel| #[trigger] in_orbit(x, t.base) implies vs.contains(x) by {}
            lemma_count_by_reps(t, vs);
        } else {
            let vs = seq![g, t0];
            assert(vs.contains(g)) by {
                assert(vs[0] == g);
            }
            assert(vs.contains(t0)) by {
                assert(vs[1] == t0);
            }
            assert forall|x: GridModel| #[trigger] in_orbit(x, t.base) implies vs.contains(x) by {}
            lemma_count_by_reps(t, vs);
        }
    } else if r2 == g {
        // Half-turn symmetric: two rotations, two reflections.
        assert(r3 == r1);
        assert(t2 == t0 && t3 == t1);
        assert(t1 != t0) by {
            if t1 == t0 {
                assert(spec_transpose(t1) == spec_transpose(t0));
                assert(spec_transpose(t1) == r3) by {
                    assert(spec_transpose(spec_transpose(r3)) == r3);
                }
                assert(spec_transpose(t0) == g);
            }
        }
        if t0 == g || t0 == r1 || t1 == g || t1 == r1 {
            assert(t0 == g ==> t1 == r1);
            assert(t0 == r1 ==> t1 == g) by {
                if t0 == r1 {
                    assert(t1 == spec_rotate_cw(r1));
                }
            }
            assert(t1 == g ==> t0 == r1) by {
                if t1 == g {
                    assert(t2 == spec_rotate_cw(g));
                }
            }
            assert(t1 == r1 ==> t0 == g) by {
                if t1 == r1 {
                    assert(t2 == spec_rotate_cw(r1));
                }
            }
            let vs = seq![g, r1];
            assert(vs.contains(g)) by {
                assert(vs[0] == g);
            }
            assert(vs.contains(r1)) by {
                assert(vs[1] == r1);
            }
            assert forall|x: GridModel| #[trigger] in_orbit(x, t.base) implies vs.contains(x) by {}
            lemma_count_by_reps(t, vs);
        } else {
            let vs = seq![g, r1, t0, t1];
            assert(vs.contains(g)) by {
                assert(vs[0] == g);
            }
            assert(vs.contains(r1)) by {
                assert(vs[1] == r1);
            }
            assert(vs.contains(t0)) by {
                assert(vs[2] == t0);
            }
            assert(vs.contains(t1)) by {
                assert(vs[3] == t1);
            }
            assert forall|x: GridModel| #[trigger] in_orbit(x, t.base) implies vs.contains(x) by {}
            lemma_count_by_reps(t, vs);
        }
    } else {
        // No rotational symmetry: four distinct rotations.
        assert(r3 != g) by {
            if r3 == g {
                assert(spec_rotate_cw(r3) == spec_rotate_cw(g));
            }
        }
        assert(r1 != r2) by {
            if r1 == r2 {
                assert(spec_rotate_cw(r1) == spec_rotate_cw(r2));
                assert(spec_rotate_cw(r2) == spec_rotate_cw(r3));
            }
        }
        assert(r1 != r3) by {
            if r1 == r3 {
                assert(spec_rotate_cw(r1) == spec_rotate_cw(r3));
            }
        }
        assert(r2 != r3) by {
            if r2 == r3 {
                assert(spec_rotate_cw(r2) == spec_rotate_cw(r3));
            }
        }
        // The four reflections are pairwise distinct as well.
        assert(t0 != t1) by {
            if t0 == t1 {
                assert(spec_transpose(t0) == spec_transpose(t1));
            }
        }
        assert(t0 != t2) by {
            if t0 == t2 {
                assert(spec_transpose(t0) == spec_transpose(t2));
            }
        }
        assert(t0 != t3) by {
            if t0 == t3 {
                assert(spec_transpose(t0) == spec_transpose(t3));
            }
        }
        assert(t1 != t2) by {
            if t1 == t2 {
                assert(spec_transpose(t1) == spec_transpose(t2));
            }
        }
        assert(t1 != t3) by {
            if t1 == t3 {
                assert(spec_transpose(t1) == spec_transpose(t3));
            }
        }
        assert(t2 != t3) by {
            if t2 == t3 {
                assert(spec_transpose(t2) == spec_transpose(t3));
            }
        }
        if t0 == g || t0 == r1 || t0 == r2 || t0 == r3 {
            assert(t1 == spec_rotate_cw(t0) && t2 == spec_rotate_cw(t1) && t3 == spec_rotate_cw(t2));
            let vs = seq![g, r1, r2, r3];
            assert(vs.contains(g)) by {
                assert(vs[0] == g);
            }
            assert(vs.contains(r1)) by {
                assert(vs[1] == r1);
            }
            assert(vs.contains(r2)) by {
                assert(vs[2] == r2);
            }
            assert(vs.contains(r3)) by {
                assert(vs[3] == r3);
            }
            assert(t1 == g || t1 == r1 || t1 == r2 || t1 == r3) by {
                assert(spec_rotate_cw(r3) == g);
            }
            assert(t2 == g || t2 == r1 || t2 == r2 || t2 == r3) by {
                assert(spec_rotate_cw(r3) == g);
            }
            assert(t3 == g || t3 == r1 || t3 == r2 || t3 == r3) by {
                assert(spec_rotate_cw(r3) == g);
            }
            assert forall|x: GridModel| #[trigger] in_orbit(x, t.base) implies vs.contains(x) by {}
            lemma_count_by_reps(t, vs);
        } else {
            // No reflection coincides with a rotation: were some t_i a
            // rotation, t0 would be one as well.
            assert(t0 == spec_rotate_cw(spec_rotate_cw(spec_rotate_cw(t1))));
            assert(t0 == spec_rotate_cw(spec_rotate_cw(t2)));
            assert(t0 == spec_rotate_cw(t3));
            assert(spec_rotate_cw(spec_rotate_cw(spec_rotate_cw(g))) == r3);
            assert(spec_rotate_cw(spec_rotate_cw(spec_rotate_cw(r1))) == g);
            assert(spec_rotate_cw(spec_rotate_cw(spec_rotate_cw(r2))) == r1);
            assert(spec_rotate_cw(spec_rotate_cw(spec_rotate_cw(r3))) == r2);
            assert(spec_rotate_cw(spec_rotate_cw(g)) == r2);
            assert(spec_rotate_cw(spec_rotate_cw(r1)) == r3);
            assert(spec_rotate_cw(spec_rotate_cw(r2)) == g);
            assert(spec_rotate_cw(spec_rotate_cw(r3)) == r1);
            assert(spec_rotate_cw(r3) == g);
            assert(t1 != g && t1 != r1 && t1 != r2 && t1 != r3) by {
                if t1 == g {
                    assert(t0 == spec_rotate_cw(spec_rotate_cw(spec_rotate_cw(g))));
                }
                if t1 == r1 {
                    assert(t0 == spec_rotate_cw(spec_rotate_cw(spec_rotate_cw(r1))));
                }
                if t1 == r2 {
                    assert(t0 == spec_rotate_cw(spec_rotate_cw(spec_rotate_cw(r2))));
                }
                if t1 == r3 {
                    assert(t0 == spec_rotate_cw(spec_rotate_cw(spec_rotate_cw(r3))));
                }
            }
            assert(t2 != g && t2 != r1 && t2 != r2 && t2 != r3) by {
                if t2 == g {
                    assert(t0 == spec_rotate_cw(spec_rotate_cw(g)));
                }
                if t2 == r1 {
                    assert(t0 == spec_rotate_cw(spec_rotate_cw(r1)));
                }
                if t2 == r2 {
                    assert(t0 == spec_rotate_cw(spec_rotate_cw(r2)));
                }
                if t2 == r3 {
                    assert(t0 == spec_rotate_cw(spec_rotate_cw(r3)));
                }
            }
            assert(t3 != g && t3 != r1 && t3 != r2 && t3 != r3) by {
                if t3 == g {
                    assert(t0 == spec_rotate_cw(g));
                }
                if t3 == r1 {
                    assert(t0 == spec_rotate_cw(r1));
                }
                if t3 == r2 {
                    assert(t0 == spec_rotate_cw(r2));
                }
                if t3 == r3 {
                    assert(t0 == spec_rotate_cw(r3));
                }
            }
            let vs = seq![g, r1, r2, r3, t0, t1, t2, t3];
            assert(vs.contains(g)) by {
                assert(vs[0] == g);
            }
            assert(vs.contains(r1)) by {
                assert(vs[1] == r1);
            }
            assert(vs.contains(r2)) by {
                assert(vs[2] == r2);
            }
            assert(vs.contains(r3)) by {
                assert(vs[3] == r3);
            }
            assert(vs.contains(t0)) by {
                assert(vs[4] == t0);
            }
            assert(vs.contains(t1)) by {
                assert(vs[5] == t1);
            }
            assert(vs.contains(t2)) by {
                assert(vs[6] == t2);
            }
            assert(vs.contains(t3)) by {
                assert(vs[7] == t3);
            }
            assert forall|x: GridModel| #[trigger] in_orbit(x, t.base) implies vs.contains(x) by {}
            lemma_count_by_reps(t, vs);
        }
    }
}


/// Every orbit member has as many filled cells as the base shape.
pub proof fn lemma_orbit_count(g: GridModel, base: GridModel)
    requires
        base.wf(),
        in_orbit(g, base),
    ensures
        count_true(g.cells) == count_true(base.cells),
{
    let r1 = spec_rotate_cw(base);
    let r2 = spec_rotate_cw(r1);
    let t0 = spec_transpose(base);
    let t1 = spec_rotate_cw(t0);
    let t2 = spec_rotate_cw(t1);
    assert(r1.wf() && r2.wf() && t0.wf() && t1.wf() && t2.wf());
    lemma_rotate_count(base);
    lemma_rotate_count(r1);
    lemma_rotate_count(r2);
    lemma_transpose_count(base);
    lemma_rotate_count(t0);
    lemma_rotate_count(t1);
    lemma_rotate_count(t2);
}

} // verus!
