use vstd::prelude::*;

use crate::curtis::{
    mk_gen, sort_differentials, sort_generators, spec_sort_diffs, spec_sort_gens, TableError,
    Tagged, Untagged, MAX_TABLE_VALUE,
};
use crate::names::{make_name, paren_ok, spec_name, spec_paren_rest, spec_paren_y, split_paren};
use crate::types::{
    diffs_view, gens_view, DiffModel, Differential, GenModel, Generator, Kind, SyntheticEHP,
    Torsion,
};
use crate::MAX_STEM;

verus! {


/// A usable entry of the stable tables: sane coordinates and
/// parenthesised tags.
pub open spec fn stable_untagged_ok(u: Untagged) -> bool {
    &&& crate::curtis::entry_bounds_ok(u.stem, u.filt)
    &&& paren_ok(u.tag@)
    &&& u.tag@.len() <= MAX_TABLE_VALUE
}

/// A usable tagged entry of the stable tables.
pub open spec fn stable_tagged_ok(t: Tagged) -> bool {
    &&& crate::curtis::entry_bounds_ok(t.stem, t.filt)
    &&& paren_ok(t.left_tag@)
    &&& paren_ok(t.right_tag@)
    &&& t.left_tag@.len() <= MAX_TABLE_VALUE
    &&& t.right_tag@.len() <= MAX_TABLE_VALUE
}

/// A well-formed pair of stable source tables.
pub open spec fn stable_tables_ok(us: Seq<Untagged>, ts: Seq<Tagged>) -> bool {
    &&& forall|i: int| 0 <= i < us.len() ==> stable_untagged_ok(#[trigger] us[i])
    &&& forall|i: int| 0 <= i < ts.len() ==> stable_tagged_ok(#[trigger] ts[i])
}

/// The generator a stable untagged entry contributes, if its stem is
/// tracked: the tag names a sphere and the rest of the generator name.
pub open spec fn spec_stable_untagged_gen(u: Untagged) -> Option<GenModel> {
    if u.stem <= MAX_STEM {
        let y = spec_paren_y(u.tag@);
        Some(mk_gen(spec_name(spec_paren_rest(u.tag@), y), u.stem, y as i32, u.filt))
    } else {
        None
    }
}

/// The generators of every untagged entry, in table order.
pub open spec fn spec_stable_untagged_gens(us: Seq<Untagged>) -> Seq<GenModel>
    decreases us.len(),
{
    if us.len() == 0 {
        Seq::empty()
    } else {
        let rest = spec_stable_untagged_gens(us.drop_last());
        match spec_stable_untagged_gen(us.last()) {
            Some(g) => rest.push(g),
            None => rest,
        }
    }
}

/// The target generator, source generator, and lifted differential one
/// stable tagged entry contributes.
pub open spec fn spec_stable_to_gen(t: Tagged) -> GenModel {
    let y = spec_paren_y(t.left_tag@);
    mk_gen(spec_name(spec_paren_rest(t.left_tag@), y), t.stem, y as i32, t.filt)
}

/// The source generator a tagged entry contributes, one stem up.
pub open spec fn spec_stable_from_gen(t: Tagged) -> GenModel {
    let y2 = spec_paren_y(t.right_tag@);
    mk_gen(
        spec_name(spec_paren_rest(t.right_tag@), y2),
        (t.stem + 1) as i32,
        y2 as i32,
        (t.filt - 1) as i32,
    )
}

/// The lifted differential of a tagged entry.
pub open spec fn spec_stable_diff(t: Tagged) -> DiffModel {
    let y = spec_paren_y(t.left_tag@);
    let y2 = spec_paren_y(t.right_tag@);
    DiffModel {
        from: spec_name(spec_paren_rest(t.right_tag@), y2),
        to: spec_name(spec_paren_rest(t.left_tag@), y),
        coeff: 0,
        d: (y2 - y) as i32,
        kind: Kind::Real,
        synthetic: false,
        justification: Some("Lifted AEHP differential."@),
    }
}

/// The generator pairs of every tracked tagged entry.
pub open spec fn spec_stable_tagged_gens(ts: Seq<Tagged>) -> Seq<GenModel>
    decreases ts.len(),
{
    if ts.len() == 0 {
        Seq::empty()
    } else {
        let rest = spec_stable_tagged_gens(ts.drop_last());
        if ts.last().stem <= MAX_STEM {
            rest.push(spec_stable_to_gen(ts.last())).push(spec_stable_from_gen(ts.last()))
        } else {
            rest
        }
    }
}

/// The lifted differentials of every tracked tagged entry.
pub open spec fn spec_stable_diffs(ts: Seq<Tagged>) -> Seq<DiffModel>
    decreases ts.len(),
{
    if ts.len() == 0 {
        Seq::empty()
    } else {
        let rest = spec_stable_diffs(ts.drop_last());
        if ts.last().stem <= MAX_STEM {
            rest.push(spec_stable_diff(ts.last()))
        } else {
            rest
        }
    }
}

/// The full generator list the stable tables derive.
pub open spec fn spec_stable_gens(us: Seq<Untagged>, ts: Seq<Tagged>) -> Seq<GenModel> {
    spec_stable_untagged_gens(us) + spec_stable_tagged_gens(ts)
}

fn check_stable_tables(untagged: &Vec<Untagged>, tagged: &Vec<Tagged>) -> (r: Result<
    (),
    TableError,
>)
    ensures
        r is Ok <==> stable_tables_ok(untagged@, tagged@),
{
    let nu = untagged.len();
    let mut i: usize = 0;
    while i < nu
        invariant
            nu == untagged@.len(),
            0 <= i <= nu,
            forall|k: int| 0 <= k < i ==> stable_untagged_ok(#[trigger] untagged@[k]),
        decreases nu - i,
    {
        let u = &untagged[i];
        if !(-MAX_TABLE_VALUE <= u.stem && u.stem <= MAX_TABLE_VALUE && -MAX_TABLE_VALUE <= u.filt
            && u.filt <= MAX_TABLE_VALUE) {
            return Err(TableError { tag: u.tag.clone() });
        }
        if u.tag.unicode_len() > MAX_TABLE_VALUE as usize {
            return Err(TableError { tag: u.tag.clone() });
        }
        match split_paren(u.tag.as_str()) {
            Some(_) => {},
            None => {
                return Err(TableError { tag: u.tag.clone() });
            },
        }
        i = i + 1;
    }
    let nt = tagged.len();
    let mut j: usize = 0;
    while j < nt
        invariant
            nt == tagged@.len(),
            0 <= j <= nt,
            forall|k: int| 0 <= k < untagged@.len() ==> stable_untagged_ok(
                #[trigger] untagged@[k],
            ),
            forall|k: int| 0 <= k < j ==> stable_tagged_ok(#[trigger] tagged@[k]),
        decreases nt - j,
    {
        let t = &tagged[j];
        if !(-MAX_TABLE_VALUE <= t.stem && t.stem <= MAX_TABLE_VALUE && -MAX_TABLE_VALUE <= t.filt
            && t.filt <= MAX_TABLE_VALUE) {
            return Err(TableError { tag: t.left_tag.clone() });
        }
        if t.left_tag.unicode_len() > MAX_TABLE_VALUE as usize {
            return Err(TableError { tag: t.left_tag.clone() });
        }
        if t.right_tag.unicode_len() > MAX_TABLE_VALUE as usize {
            return Err(TableError { tag: t.right_tag.clone() });
        }
        match split_paren(t.left_tag.as_str()) {
            Some(_) => {},
            None => {
                return Err(TableError { tag: t.left_tag.clone() });
            },
        }
        match split_paren(t.right_tag.as_str()) {
            Some(_) => {},
            None => {
                return Err(TableError { tag: t.right_tag.clone() });
            },
        }
        j = j + 1;
    }
    Ok(())
}

/// Derive the stable algebraic data set from the parsed stable tables:
/// each untagged entry is a lone generator, each tagged entry a pair of
/// generators joined by a lifted differential.
pub fn parse_stable_algebraic_data(untagged: &Vec<Untagged>, tagged: &Vec<Tagged>) -> (r: Result<
    SyntheticEHP,
    TableError,
>)
    ensures
        match r {
            Ok(data) => {
                &&& stable_tables_ok(untagged@, tagged@)
                &&& gens_view(data.generators@) == spec_stable_gens(untagged@, tagged@)
                &&& diffs_view(data.differentials@) == spec_stable_diffs(tagged@)
                &&& data.multiplications@.len() == 0
                &&& data.index_ok()
                &&& data.torsion_wf()
            },
            Err(_) => !stable_tables_ok(untagged@, tagged@),
        },
{
    match check_stable_tables(untagged, tagged) {
        Ok(_) => {},
        Err(e) => {
            return Err(e);
        },
    }
    let mut generators: Vec<Generator> = Vec::new();
    let nu = untagged.len();
    let mut i: usize = 0;
    while i < nu
        invariant
            nu == untagged@.len(),
            0 <= i <= nu,
            stable_tables_ok(untagged@, tagged@),
            gens_view(generators@) == spec_stable_untagged_gens(untagged@.take(i as int)),
            forall|q: int| 0 <= q < generators@.len() ==> (#[trigger] generators@[q]).torsion
                == Torsion::Free,
        decreases nu - i,
    {
        let u = &untagged[i];
        let ghost before = generators@;
        let ghost taken = untagged@.take(i + 1);
        proof {
            assert(stable_untagged_ok(untagged@[i as int]));
            assert(taken.drop_last() =~= untagged@.take(i as int));
            assert(taken.last() == untagged@[i as int]);
        }
        let mut pushed = false;
        if u.stem <= MAX_STEM {
            let (y, rest) = match split_paren(u.tag.as_str()) {
                Some(v) => v,
                None => {
                    proof {
                        assert(false);
                    }
                    return Err(TableError { tag: u.tag.clone() });
                },
            };
            let g = Generator::new(make_name(rest.as_str(), y), u.stem, y, u.filt);
            let ghost gfull = g;
            generators.push(g);
            pushed = true;
            proof {
                crate::types::lemma_gens_view_push(before, gfull);
                assert(spec_stable_untagged_gen(untagged@[i as int]) == Some(gfull@));
            }
        }
        proof {
            if !pushed {
                assert(spec_stable_untagged_gen(untagged@[i as int]) is None);
            }
            assert(gens_view(generators@) == spec_stable_untagged_gens(taken));
        }
        i = i + 1;
    }
    proof {
        assert(untagged@.take(nu as int) =~= untagged@);
    }

    let mut differentials: Vec<Differential> = Vec::new();
    let ghost base = gens_view(generators@);
    let nt = tagged.len();
    let mut j: usize = 0;
    while j < nt
        invariant
            nt == tagged@.len(),
            0 <= j <= nt,
            stable_tables_ok(untagged@, tagged@),
            base == spec_stable_untagged_gens(untagged@),
            gens_view(generators@) == base + spec_stable_tagged_gens(tagged@.take(j as int)),
            diffs_view(differentials@) == spec_stable_diffs(tagged@.take(j as int)),
            forall|q: int| 0 <= q < generators@.len() ==> (#[trigger] generators@[q]).torsion
                == Torsion::Free,
        decreases nt - j,
    {
        let t = &tagged[j];
        let ghost gens_before = generators@;
        let ghost diffs_before = differentials@;
        let ghost taken = tagged@.take(j + 1);
        proof {
            assert(stable_tagged_ok(tagged@[j as int]));
            assert(taken.drop_last() =~= tagged@.take(j as int));
            assert(taken.last() == tagged@[j as int]);
        }
        let mut pushed = false;
        if t.stem <= MAX_STEM {
            let (ly, lrest) = match split_paren(t.left_tag.as_str()) {
                Some(v) => v,
                None => {
                    proof {
                        assert(false);
                    }
                    return Err(TableError { tag: t.left_tag.clone() });
                },
            };
            let (ry, rrest) = match split_paren(t.right_tag.as_str()) {
                Some(v) => v,
                None => {
                    proof {
                        assert(false);
                    }
                    return Err(TableError { tag: t.right_tag.clone() });
                },
            };
            let to_name = make_name(lrest.as_str(), ly);
            let from_name = make_name(rrest.as_str(), ry);
            let g1 = Generator::new(to_name.clone(), t.stem, ly, t.filt);
            let ghost g1full = g1;
            generators.push(g1);
            let ghost mid = generators@;
            let g2 = Generator::new(from_name.clone(), t.stem + 1, ry, t.filt - 1);
            let ghost g2full = g2;
            generators.push(g2);
            let dnew = Differential {
                from: from_name,
                to: to_name,
                coeff: 0,
                d: ry - ly,
                kind: Kind::Real,
                synthetic: false,
                justification: Some(String::from_str("Lifted AEHP differential.")),
            };
            let ghost dfull = dnew;
            differentials.push(dnew);
            pushed = true;
            proof {
                crate::types::lemma_gens_view_push(gens_before, g1full);
                crate::types::lemma_gens_view_push(mid, g2full);
                crate::types::lemma_diffs_view_push(diffs_before, dfull);
                assert(g1full@ == spec_stable_to_gen(tagged@[j as int]));
                assert(g2full@ == spec_stable_from_gen(tagged@[j as int]));
                assert(dfull@ == spec_stable_diff(tagged@[j as int]));
            }
        }
        proof {
            if !pushed {
                assert(gens_view(generators@) == base + spec_stable_tagged_gens(taken));
                assert(diffs_view(differentials@) == spec_stable_diffs(taken));
            } else {
                assert(gens_view(generators@) =~= base + spec_stable_tagged_gens(taken));
                assert(diffs_view(differentials@) =~= spec_stable_diffs(taken));
            }
        }
        j = j + 1;
    }
    proof {
        assert(tagged@.take(nt as int) =~= tagged@);
    }

    let mut data = SyntheticEHP {
        generators,
        differentials,
        multiplications: Vec::new(),
        find_map: Vec::new(),
    };
    data.build_find_map();
    Ok(data)
}

/// Derive the stable algebraic data set and bring it into its working
/// order, exactly as the unstable generation does.
pub fn generate_stable_algebraic_data(untagged: &Vec<Untagged>, tagged: &Vec<Tagged>) -> (r:
    Result<SyntheticEHP, TableError>)
    ensures
        match r {
            Ok(data) => {
                &&& stable_tables_ok(untagged@, tagged@)
                &&& gens_view(data.generators@) == spec_sort_gens(
                    spec_stable_gens(untagged@, tagged@),
                )
                &&& diffs_view(data.differentials@) == spec_sort_diffs(spec_stable_diffs(tagged@))
                &&& data.multiplications@.len() == 0
                &&& data.index_ok()
                &&& data.torsion_wf()
                &&& data.diffs_ordered()
            },
            Err(_) => !stable_tables_ok(untagged@, tagged@),
        },
{
    let mut data = match parse_stable_algebraic_data(untagged, tagged) {
        Ok(d) => d,
        Err(e) => {
            return Err(e);
        },
    };
    let gens = sort_generators(data.generators);
    let diffs = sort_differentials(data.differentials);
    data = SyntheticEHP {
        generators: gens,
        differentials: diffs,
        multiplications: data.multiplications,
        find_map: data.find_map,
    };
    data.build_find_map();
    Ok(data)
}

} // verus!
