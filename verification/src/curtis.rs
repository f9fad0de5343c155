use vstd::prelude::*;

use crate::names::{
    all_digits, first_token_value, make_name, spec_after_token, spec_digits_val, spec_first_token,
    spec_name, spec_token_count, split_first_token, token_count,
};
use crate::types::{
    diffs_sorted, diffs_view, gens_view, lemma_diffs_view_push, lemma_gens_view_push, DiffModel,
    Differential, GenModel, Generator, Kind, SyntheticEHP, Torsion,
};
use crate::MAX_STEM;

verus! {


/// Bound on the coordinates and tag lengths a source table may carry;
/// entries beyond it are rejected as malformed.
pub const MAX_TABLE_VALUE: i32 = 1000000;

/// An entry of the source table that names a lone generator.
#[derive(Clone, Debug)]
pub struct Untagged {
    pub stem: i32,
    pub filt: i32,
    pub tag: String,
}

/// An entry of the source table that pairs a generator with the tag it is
/// hit by, from which a lifted differential is derived.
#[derive(Clone, Debug)]
pub struct Tagged {
    pub stem: i32,
    pub filt: i32,
    pub left_tag: String,
    pub right_tag: String,
}

/// A malformed table entry, carrying the offending tag text.
#[derive(Clone, Debug)]
pub struct TableError {
    pub tag: String,
}

/// A usable tag: it leads with a decimal number and is of sane length.
pub open spec fn tag_ok(t: Seq<char>) -> bool {
    &&& spec_first_token(t).len() > 0
    &&& all_digits(spec_first_token(t))
    &&& spec_digits_val(spec_first_token(t)) <= i32::MAX
    &&& t.len() <= MAX_TABLE_VALUE
}

/// Coordinates a table entry may carry.
pub open spec fn entry_bounds_ok(stem: i32, filt: i32) -> bool {
    -MAX_TABLE_VALUE <= stem <= MAX_TABLE_VALUE && -MAX_TABLE_VALUE <= filt <= MAX_TABLE_VALUE
}

/// A usable untagged entry.
pub open spec fn untagged_ok(u: Untagged) -> bool {
    entry_bounds_ok(u.stem, u.filt) && tag_ok(u.tag@)
}

/// A usable tagged entry.
pub open spec fn tagged_ok(t: Tagged) -> bool {
    entry_bounds_ok(t.stem, t.filt) && tag_ok(t.left_tag@) && tag_ok(t.right_tag@)
}

/// A well-formed pair of source tables.
pub open spec fn tables_ok(us: Seq<Untagged>, ts: Seq<Tagged>) -> bool {
    &&& forall|i: int| 0 <= i < us.len() ==> untagged_ok(#[trigger] us[i])
    &&& forall|i: int| 0 <= i < ts.len() ==> tagged_ok(#[trigger] ts[i])
}

/// The leading number of a tag.
pub open spec fn initial_of(t: Seq<char>) -> int {
    spec_digits_val(spec_first_token(t))
}

/// A fresh generator model with its name as its own induced name.
pub open spec fn mk_gen(name: Seq<char>, x: i32, y: i32, af: i32) -> GenModel {
    GenModel { name, x, y, adams_filtration: af, torsion: Torsion::Free, induced_name: name }
}

/// The degree-zero generators `[y]` on the odd spheres.
pub open spec fn spec_zero_gens(k: nat) -> Seq<GenModel>
    decreases k,
{
    if k == 0 {
        Seq::empty()
    } else {
        let y = (2 * (k - 1) + 1) as i32;
        spec_zero_gens((k - 1) as nat).push(mk_gen(spec_name(Seq::empty(), y as int), y, y, 1))
    }
}

/// The base of the generator list: `[0]` and the degree-zero sphere
/// generators.
pub open spec fn spec_base_gens() -> Seq<GenModel> {
    seq![mk_gen(spec_name(Seq::empty(), 0), 0, 0, 0)] + spec_zero_gens(13)
}

/// The generator an untagged (stable) entry contributes on sphere
/// parameter `y`, if any: the entry must fit under the stem bound and its
/// leading number must be below the sphere dimension.
pub open spec fn spec_stable_gen(u: Untagged, y: i32) -> Option<GenModel> {
    if u.stem + y <= MAX_STEM && initial_of(u.tag@) < 2 * y + 1 {
        Some(
            mk_gen(
                spec_name(u.tag@, y as int),
                (u.stem + y) as i32,
                y,
                (u.filt + 1) as i32,
            ),
        )
    } else {
        None
    }
}

/// The stable generators of one sphere parameter, in table order.
pub open spec fn spec_stable_row(us: Seq<Untagged>, y: i32) -> Seq<GenModel>
    decreases us.len(),
{
    if us.len() == 0 {
        Seq::empty()
    } else {
        let rest = spec_stable_row(us.drop_last(), y);
        match spec_stable_gen(us.last(), y) {
            Some(g) => rest.push(g),
            None => rest,
        }
    }
}

/// The stable generators of every sphere parameter up to `ymax`.
pub open spec fn spec_stable_all(us: Seq<Untagged>, ymax: i32) -> Seq<GenModel>
    decreases ymax,
{
    if ymax < 1 {
        Seq::empty()
    } else {
        spec_stable_all(us, (ymax - 1) as i32) + spec_stable_row(us, ymax)
    }
}

/// The generator a tagged (unstable) entry contributes on sphere
/// parameter `y`, if any: it exists only on the spheres between the
/// dimensions its two tags lead with.
pub open spec fn spec_unstable_gen(t: Tagged, y: i32) -> Option<GenModel> {
    if t.stem + y <= MAX_STEM && initial_of(t.left_tag@) < 2 * y + 1 && 2 * y + 1 <= initial_of(
        t.right_tag@,
    ) {
        Some(
            mk_gen(
                spec_name(t.left_tag@, y as int),
                (t.stem + y) as i32,
                y,
                (t.filt + 1) as i32,
            ),
        )
    } else {
        None
    }
}

/// The unstable generators of one sphere parameter, in table order.
pub open spec fn spec_unstable_row(ts: Seq<Tagged>, y: i32) -> Seq<GenModel>
    decreases ts.len(),
{
    if ts.len() == 0 {
        Seq::empty()
    } else {
        let rest = spec_unstable_row(ts.drop_last(), y);
        match spec_unstable_gen(ts.last(), y) {
            Some(g) => rest.push(g),
            None => rest,
        }
    }
}

/// The unstable generators of every sphere parameter up to `ymax`.
pub open spec fn spec_unstable_all(ts: Seq<Tagged>, ymax: i32) -> Seq<GenModel>
    decreases ymax,
{
    if ymax < 1 {
        Seq::empty()
    } else {
        spec_unstable_all(ts, (ymax - 1) as i32) + spec_unstable_row(ts, ymax)
    }
}

/// The differential a tagged entry lifts: the right tag names the source,
/// the left the target, and the page is the gap between their leading
/// sphere dimensions.
pub open spec fn spec_lifted_diff(t: Tagged) -> DiffModel {
    let ry = initial_of(t.right_tag@);
    let ly = initial_of(t.left_tag@);
    DiffModel {
        from: spec_name(spec_after_token(t.right_tag@), ry),
        to: spec_name(spec_after_token(t.left_tag@), ly),
        coeff: 0,
        d: (ry - ly) as i32,
        kind: Kind::Real,
        synthetic: false,
        justification: Some("Lifted AEHP differential."@),
    }
}

/// The lifted differentials of every tracked tagged entry.
pub open spec fn spec_lifted_diffs(ts: Seq<Tagged>) -> Seq<DiffModel>
    decreases ts.len(),
{
    if ts.len() == 0 {
        Seq::empty()
    } else {
        let rest = spec_lifted_diffs(ts.drop_last());
        if ts.last().stem <= MAX_STEM {
            rest.push(spec_lifted_diff(ts.last()))
        } else {
            rest
        }
    }
}

/// Sources on the outermost tracked stem are added as generators so that
/// their differentials have both endpoints.
pub open spec fn spec_extra_gen(t: Tagged) -> GenModel {
    let ry = initial_of(t.right_tag@);
    mk_gen(
        spec_name(spec_after_token(t.right_tag@), ry),
        (t.stem + 1) as i32,
        ry as i32,
        spec_token_count(t.right_tag@) as i32,
    )
}

/// The sources added on the outermost tracked stem.
pub open spec fn spec_extra_gens(ts: Seq<Tagged>) -> Seq<GenModel>
    decreases ts.len(),
{
    if ts.len() == 0 {
        Seq::empty()
    } else {
        let rest = spec_extra_gens(ts.drop_last());
        if ts.last().stem == MAX_STEM {
            rest.push(spec_extra_gen(ts.last()))
        } else {
            rest
        }
    }
}

/// The full generator list the tables derive, in construction order.
pub open spec fn spec_parse_gens(us: Seq<Untagged>, ts: Seq<Tagged>) -> Seq<GenModel> {
    spec_base_gens() + spec_stable_all(us, 26) + spec_unstable_all(ts, 26) + spec_extra_gens(ts)
}

/// The full differential list the tables derive.
pub open spec fn spec_parse_diffs(ts: Seq<Tagged>) -> Seq<DiffModel> {
    spec_lifted_diffs(ts)
}

/// Check that every entry of both tables is usable.
fn check_tables(untagged: &Vec<Untagged>, tagged: &Vec<Tagged>) -> (r: Result<(), TableError>)
    ensures
        r is Ok <==> tables_ok(untagged@, tagged@),
{
    let nu = untagged.len();
    let mut i: usize = 0;
    while i < nu
        invariant
            nu == untagged@.len(),
            0 <= i <= nu,
            forall|k: int| 0 <= k < i ==> untagged_ok(#[trigger] untagged@[k]),
        decreases nu - i,
    {
        let u = &untagged[i];
        if !(-MAX_TABLE_VALUE <= u.stem && u.stem <= MAX_TABLE_VALUE && -MAX_TABLE_VALUE <= u.filt
            && u.filt <= MAX_TABLE_VALUE) {
            return Err(TableError { tag: u.tag.clone() });
        }
        if u.tag.unicode_len() > MAX_TABLE_VALUE as usize {
            return Err(TableError { tag: u.tag.clone() });
        }
        match first_token_value(u.tag.as_str()) {
            Some(_) => {},
            None => {
                return Err(TableError { tag: u.tag.clone() });
            },
        }
        i = i + 1;
    }
    let nt = tagged.len();
    let mut j: usize = 0;
    while j < nt
        invariant
            nt == tagged@.len(),
            0 <= j <= nt,
            forall|k: int| 0 <= k < untagged@.len() ==> untagged_ok(#[trigger] untagged@[k]),
            forall|k: int| 0 <= k < j ==> tagged_ok(#[trigger] tagged@[k]),
        decreases nt - j,
    {
        let t = &tagged[j];
        if !(-MAX_TABLE_VALUE <= t.stem && t.stem <= MAX_TABLE_VALUE && -MAX_TABLE_VALUE <= t.filt
            && t.filt <= MAX_TABLE_VALUE) {
            return Err(TableError { tag: t.left_tag.clone() });
        }
        if t.left_tag.unicode_len() > MAX_TABLE_VALUE as usize {
            return Err(TableError { tag: t.left_tag.clone() });
        }
        if t.right_tag.unicode_len() > MAX_TABLE_VALUE as usize {
            return Err(TableError { tag: t.right_tag.clone() });
        }
        match first_token_value(t.left_tag.as_str()) {
            Some(_) => {},
            None => {
                return Err(TableError { tag: t.left_tag.clone() });
            },
        }
        match first_token_value(t.right_tag.as_str()) {
            Some(_) => {},
            None => {
                return Err(TableError { tag: t.right_tag.clone() });
            },
        }
        j = j + 1;
    }
    Ok(())
}

/// Derive the initial generator and differential lists from the parsed
/// source tables.  Malformed entries are rejected with the offending tag.
#[verifier::rlimit(100)]
pub fn parse_algebraic_data(untagged: &Vec<Untagged>, tagged: &Vec<Tagged>) -> (r: Result<
    SyntheticEHP,
    TableError,
>)
    ensures
        match r {
            Ok(data) => {
                &&& tables_ok(untagged@, tagged@)
                &&& gens_view(data.generators@) == spec_parse_gens(untagged@, tagged@)
                &&& diffs_view(data.differentials@) == spec_parse_diffs(tagged@)
                &&& data.multiplications@.len() == 0
                &&& data.index_ok()
                &&& data.torsion_wf()
            },
            Err(_) => !tables_ok(untagged@, tagged@),
        },
{
    match check_tables(untagged, tagged) {
        Ok(_) => {},
        Err(e) => {
            return Err(e);
        },
    }
    let mut generators: Vec<Generator> = Vec::new();

    // the initial generator and the degree-zero parts
    generators.push(Generator::new(make_name("", 0), 0, 0, 0));
    proof {
        reveal_strlit("");
        assert(""@ =~= Seq::<char>::empty());
        assert(gens_view(generators@) =~~= seq![mk_gen(spec_name(Seq::empty(), 0), 0, 0, 0)]);
    }
    let mut k: usize = 0;
    while k < 13
        invariant
            0 <= k <= 13,
            gens_view(generators@) == seq![mk_gen(spec_name(Seq::empty(), 0), 0, 0, 0)]
                + spec_zero_gens(k as nat),
            forall|q: int| 0 <= q < generators@.len() ==> (#[trigger] generators@[q]).torsion
                == Torsion::Free,
        decreases 13 - k,
    {
        let y: i32 = 2 * (k as i32) + 1;
        let ghost before = generators@;
        let g = Generator::new(make_name("", y), y, y, 1);
        let ghost gfull = g;
        generators.push(g);
        proof {
            reveal_strlit("");
            assert(""@ =~= Seq::<char>::empty());
            lemma_gens_view_push(before, gfull);
            assert(gfull@ == mk_gen(spec_name(Seq::empty(), y as int), y, y, 1));
            assert(spec_zero_gens((k + 1) as nat) == spec_zero_gens(k as nat).push(gfull@));
            assert((seq![mk_gen(spec_name(Seq::empty(), 0), 0, 0, 0)] + spec_zero_gens(k as nat))
                .push(gfull@) =~= seq![mk_gen(spec_name(Seq::empty(), 0), 0, 0, 0)]
                + spec_zero_gens((k + 1) as nat));
        }
        k = k + 1;
    }
    proof {
        assert(gens_view(generators@) =~~= spec_base_gens());
    }

    // stable generators, per sphere parameter
    let ghost base = gens_view(generators@);
    let mut y: i32 = 1;
    while y <= 26
        invariant
            1 <= y <= 27,
            tables_ok(untagged@, tagged@),
            gens_view(generators@) == base + spec_stable_all(untagged@, (y - 1) as i32),
            base == spec_base_gens(),
            forall|q: int| 0 <= q < generators@.len() ==> (#[trigger] generators@[q]).torsion
                == Torsion::Free,
        decreases 27 - y,
    {
        let nu = untagged.len();
        let ghost row_base = gens_view(generators@);
        let mut j: usize = 0;
        while j < nu
            invariant
                1 <= y <= 26,
                nu == untagged@.len(),
                0 <= j <= nu,
                tables_ok(untagged@, tagged@),
                gens_view(generators@) == row_base + spec_stable_row(
                    untagged@.take(j as int),
                    y,
                ),
                forall|q: int| 0 <= q < generators@.len() ==> (#[trigger] generators@[q]).torsion
                    == Torsion::Free,
            decreases nu - j,
        {
            let u = &untagged[j];
            let ghost before = generators@;
            let ghost taken = untagged@.take(j + 1);
            proof {
                assert(untagged_ok(untagged@[j as int]));
                assert(taken.drop_last() =~= untagged@.take(j as int));
                assert(taken.last() == untagged@[j as int]);
            }
            let mut pushed = false;
            if u.stem as i64 + y as i64 <= MAX_STEM as i64 {
                let initial = match first_token_value(u.tag.as_str()) {
                    Some(v) => v,
                    None => {
                        proof {
                            assert(false);
                        }
                        return Err(TableError { tag: u.tag.clone() });
                    },
                };
                if (initial as i64) < 2 * (y as i64) + 1 {
                    let g = Generator::new(make_name(u.tag.as_str(), y), u.stem + y, y, u.filt + 1);
                    let ghost gfull = g;
                    generators.push(g);
                    pushed = true;
                    proof {
                        lemma_gens_view_push(before, gfull);
                        assert(spec_stable_gen(untagged@[j as int], y) == Some(gfull@));
                        assert((row_base + spec_stable_row(untagged@.take(j as int), y)).push(
                            gfull@,
                        ) =~= row_base + spec_stable_row(taken, y));
                    }
                }
            }
            proof {
                if !pushed {
                    assert(spec_stable_gen(untagged@[j as int], y) is None);
                    assert(gens_view(generators@) == row_base + spec_stable_row(taken, y));
                }
            }
            j = j + 1;
        }
        proof {
            assert(untagged@.take(nu as int) =~= untagged@);
            assert(gens_view(generators@) =~~= base + spec_stable_all(untagged@, y));
        }
        y = y + 1;
    }

    // unstable generators, per sphere parameter
    let ghost base2 = gens_view(generators@);
    let mut y2: i32 = 1;
    while y2 <= 26
        invariant
            1 <= y2 <= 27,
            tables_ok(untagged@, tagged@),
            gens_view(generators@) == base2 + spec_unstable_all(tagged@, (y2 - 1) as i32),
            base2 == spec_base_gens() + spec_stable_all(untagged@, 26),
            forall|q: int| 0 <= q < generators@.len() ==> (#[trigger] generators@[q]).torsion
                == Torsion::Free,
        decreases 27 - y2,
    {
        let nt = tagged.len();
        let ghost row_base = gens_view(generators@);
        let mut j: usize = 0;
        while j < nt
            invariant
                1 <= y2 <= 26,
                nt == tagged@.len(),
                0 <= j <= nt,
                tables_ok(untagged@, tagged@),
                gens_view(generators@) == row_base + spec_unstable_row(tagged@.take(j as int), y2),
                forall|q: int| 0 <= q < generators@.len() ==> (#[trigger] generators@[q]).torsion
                    == Torsion::Free,
            decreases nt - j,
        {
            let t = &tagged[j];
            let ghost before = generators@;
            let ghost taken = tagged@.take(j + 1);
            proof {
                assert(tagged_ok(tagged@[j as int]));
                assert(taken.drop_last() =~= tagged@.take(j as int));
                assert(taken.last() == tagged@[j as int]);
            }
            let mut pushed = false;
            if t.stem as i64 + y2 as i64 <= MAX_STEM as i64 {
                let initial = match first_token_value(t.left_tag.as_str()) {
                    Some(v) => v,
                    None => {
                        proof {
                            assert(false);
                        }
                        return Err(TableError { tag: t.left_tag.clone() });
                    },
                };
                let initial_tag = match first_token_value(t.right_tag.as_str()) {
                    Some(v) => v,
                    None => {
                        proof {
                            assert(false);
                        }
                        return Err(TableError { tag: t.right_tag.clone() });
                    },
                };
                if (initial as i64) < 2 * (y2 as i64) + 1 && 2 * (y2 as i64) + 1
                    <= initial_tag as i64 {
                    let g = Generator::new(
                        make_name(t.left_tag.as_str(), y2),
                        t.stem + y2,
                        y2,
                        t.filt + 1,
                    );
                    let ghost gfull = g;
                    generators.push(g);
                    pushed = true;
                    proof {
                        lemma_gens_view_push(before, gfull);
                        assert(spec_unstable_gen(tagged@[j as int], y2) == Some(gfull@));
                        assert((row_base + spec_unstable_row(tagged@.take(j as int), y2)).push(
                            gfull@,
                        ) =~= row_base + spec_unstable_row(taken, y2));
                    }
                }
            }
            proof {
                if !pushed {
                    assert(spec_unstable_gen(tagged@[j as int], y2) is None);
                    assert(gens_view(generators@) == row_base + spec_unstable_row(taken, y2));
                }
            }
            j = j + 1;
        }
        proof {
            assert(tagged@.take(nt as int) =~= tagged@);
            assert(gens_view(generators@) =~~= base2 + spec_unstable_all(tagged@, y2));
        }
        y2 = y2 + 1;
    }

    // lifted differentials, with the outermost sources added as generators
    let mut differentials: Vec<Differential> = Vec::new();
    let ghost base3 = gens_view(generators@);
    let nt = tagged.len();
    let mut j: usize = 0;
    while j < nt
        invariant
            nt == tagged@.len(),
            0 <= j <= nt,
            tables_ok(untagged@, tagged@),
            gens_view(generators@) == base3 + spec_extra_gens(tagged@.take(j as int)),
            diffs_view(differentials@) == spec_lifted_diffs(tagged@.take(j as int)),
            forall|q: int| 0 <= q < generators@.len() ==> (#[trigger] generators@[q]).torsion
                == Torsion::Free,
        decreases nt - j,
    {
        let t = &tagged[j];
        let ghost gens_before = gens_view(generators@);
        let ghost diffs_before = differentials@;
        let ghost taken = tagged@.take(j + 1);
        proof {
            assert(tagged_ok(tagged@[j as int]));
            assert(taken.drop_last() =~= tagged@.take(j as int));
            assert(taken.last() == tagged@[j as int]);
        }
        let mut pushed_gen = false;
        if t.stem <= MAX_STEM {
            let (ry, rrest) = match split_first_token(t.right_tag.as_str()) {
                Some(v) => v,
                None => {
                    proof {
                        assert(false);
                    }
                    return Err(TableError { tag: t.right_tag.clone() });
                },
            };
            let (ly, lrest) = match split_first_token(t.left_tag.as_str()) {
                Some(v) => v,
                None => {
                    proof {
                        assert(false);
                    }
                    return Err(TableError { tag: t.left_tag.clone() });
                },
            };
            let f = make_name(rrest.as_str(), ry);
            let to_name = make_name(lrest.as_str(), ly);
            let dnew = Differential {
                from: f.clone(),
                to: to_name,
                coeff: 0,
                d: ry - ly,
                kind: Kind::Real,
                synthetic: false,
                justification: Some(String::from_str("Lifted AEHP differential.")),
            };
            let ghost dfull = dnew;
            differentials.push(dnew);
            proof {
                lemma_diffs_view_push(diffs_before, dfull);
                assert(dfull@ == spec_lifted_diff(tagged@[j as int]));
                assert(spec_lifted_diffs(tagged@.take(j as int)).push(dfull@) =~= spec_lifted_diffs(
                    taken,
                ));
            }
            if t.stem == MAX_STEM {
                let af_count = token_count(t.right_tag.as_str());
                proof {
                    crate::names::lemma_token_count_bound(t.right_tag@);
                }
                let ghost gens_now = generators@;
                let g = Generator::new(f, t.stem + 1, ry, af_count as i32);
                let ghost gfull = g;
                generators.push(g);
                pushed_gen = true;
                proof {
                    lemma_gens_view_push(gens_now, gfull);
                    assert(gfull@ == spec_extra_gen(tagged@[j as int]));
                    assert((base3 + spec_extra_gens(tagged@.take(j as int))).push(gfull@)
                        =~= base3 + spec_extra_gens(taken));
                }
            }
        }
        proof {
            if !pushed_gen {
                assert(gens_view(generators@) == base3 + spec_extra_gens(taken));
            }
            if !(tagged@[j as int].stem <= MAX_STEM) {
                assert(diffs_view(differentials@) == spec_lifted_diffs(taken));
            }
        }
        j = j + 1;
    }
    proof {
        assert(tagged@.take(nt as int) =~= tagged@);
        assert(gens_view(generators@) =~~= spec_parse_gens(untagged@, tagged@));
    }

    let mut data = SyntheticEHP {
        generators,
        differentials,
        multiplications: Vec::new(),
        find_map: Vec::new(),
    };
    data.build_find_map();
    Ok(data)
}



/// The stable order the generator list is brought into: ascending Adams
/// filtration, ties by ascending sphere parameter, further ties kept in
/// construction order.
pub open spec fn gen_before(a: GenModel, b: GenModel) -> bool {
    a.adams_filtration < b.adams_filtration || (a.adams_filtration == b.adams_filtration && a.y
        < b.y)
}

/// Stable ordered insert of a generator: after every element it does not
/// strictly precede.
pub open spec fn spec_insert_gen(s: Seq<GenModel>, g: GenModel) -> Seq<GenModel>
    decreases s.len(),
{
    if s.len() == 0 {
        seq![g]
    } else if gen_before(g, s[0]) {
        seq![g] + s
    } else {
        seq![s[0]] + spec_insert_gen(s.drop_first(), g)
    }
}

/// The stable sort of the generator list.
pub open spec fn spec_sort_gens(s: Seq<GenModel>) -> Seq<GenModel>
    decreases s.len(),
{
    if s.len() == 0 {
        Seq::empty()
    } else {
        spec_insert_gen(spec_sort_gens(s.drop_last()), s.last())
    }
}

/// The order the differential list is kept in, over values.
pub open spec fn diff_model_before(a: DiffModel, b: DiffModel) -> bool {
    a.d < b.d || (a.d == b.d && a.coeff > b.coeff)
}

/// Stable ordered insert of a differential value.
pub open spec fn spec_insert_diff_model(s: Seq<DiffModel>, d: DiffModel) -> Seq<DiffModel>
    decreases s.len(),
{
    if s.len() == 0 {
        seq![d]
    } else if diff_model_before(d, s[0]) {
        seq![d] + s
    } else {
        seq![s[0]] + spec_insert_diff_model(s.drop_first(), d)
    }
}

/// The stable sort of the differential list into its page order.
pub open spec fn spec_sort_diffs(s: Seq<DiffModel>) -> Seq<DiffModel>
    decreases s.len(),
{
    if s.len() == 0 {
        Seq::empty()
    } else {
        spec_insert_diff_model(spec_sort_diffs(s.drop_last()), s.last())
    }
}

/// A left-to-right scan finds the position the stable insert uses.
proof fn lemma_insert_gen_at_first(s: Seq<GenModel>, g: GenModel, pos: int)
    requires
        0 <= pos <= s.len(),
        forall|k: int| 0 <= k < pos ==> !gen_before(g, #[trigger] s[k]),
        pos < s.len() ==> gen_before(g, s[pos]),
    ensures
        spec_insert_gen(s, g) == s.insert(pos, g),
    decreases s.len(),
{
    if s.len() == 0 {
        assert(spec_insert_gen(s, g) =~= s.insert(0, g));
    } else if gen_before(g, s[0]) {
        assert(pos == 0);
        assert(seq![g] + s =~= s.insert(0, g));
    } else {
        let rest = s.drop_first();
        assert(pos >= 1);
        assert(forall|k: int| 0 <= k < pos - 1 ==> rest[k] == s[k + 1]);
        assert(pos - 1 < rest.len() ==> gen_before(g, rest[pos - 1]));
        lemma_insert_gen_at_first(rest, g, pos - 1);
        assert(seq![s[0]] + rest.insert(pos - 1, g) =~= s.insert(pos, g));
    }
}

proof fn lemma_insert_diff_model_at_first(s: Seq<DiffModel>, d: DiffModel, pos: int)
    requires
        0 <= pos <= s.len(),
        forall|k: int| 0 <= k < pos ==> !diff_model_before(d, #[trigger] s[k]),
        pos < s.len() ==> diff_model_before(d, s[pos]),
    ensures
        spec_insert_diff_model(s, d) == s.insert(pos, d),
    decreases s.len(),
{
    if s.len() == 0 {
        assert(spec_insert_diff_model(s, d) =~= s.insert(0, d));
    } else if diff_model_before(d, s[0]) {
        assert(pos == 0);
        assert(seq![d] + s =~= s.insert(0, d));
    } else {
        let rest = s.drop_first();
        assert(pos >= 1);
        assert(forall|k: int| 0 <= k < pos - 1 ==> rest[k] == s[k + 1]);
        assert(pos - 1 < rest.len() ==> diff_model_before(d, rest[pos - 1]));
        lemma_insert_diff_model_at_first(rest, d, pos - 1);
        assert(seq![s[0]] + rest.insert(pos - 1, d) =~= s.insert(pos, d));
    }
}

/// Sortedness over values carries to the exec list, whose order reads the
/// same fields.
proof fn lemma_model_sorted_exec(s: Seq<Differential>)
    requires
        forall|i: int, j: int|
            0 <= i < j < diffs_view(s).len() ==> !diff_model_before(
                #[trigger] diffs_view(s)[j],
                #[trigger] diffs_view(s)[i],
            ),
    ensures
        diffs_sorted(s),
{
    assert forall|i: int, j: int| 0 <= i < j < s.len() implies !crate::types::diff_before(
        #[trigger] s[j],
        #[trigger] s[i],
    ) by {
        assert(diffs_view(s)[i] == s[i]@);
        assert(diffs_view(s)[j] == s[j]@);
    }
}

/// Stable insert keeps a value-sorted differential list sorted.
proof fn lemma_insert_diff_model_sorted(s: Seq<DiffModel>, d: DiffModel)
    requires
        forall|i: int, j: int|
            0 <= i < j < s.len() ==> !diff_model_before(#[trigger] s[j], #[trigger] s[i]),
    ensures
        forall|i: int, j: int|
            0 <= i < j < spec_insert_diff_model(s, d).len() ==> !diff_model_before(
                #[trigger] spec_insert_diff_model(s, d)[j],
                #[trigger] spec_insert_diff_model(s, d)[i],
            ),
    decreases s.len(),
{
    let r = spec_insert_diff_model(s, d);
    if s.len() == 0 {
    } else if diff_model_before(d, s[0]) {
        assert forall|i: int, j: int| 0 <= i < j < r.len() implies !diff_model_before(
            r[j],
            r[i],
        ) by {
            if i == 0 {
                assert(r[j] == s[j - 1]);
                if j > 1 {
                    assert(!diff_model_before(s[j - 1], s[0]));
                }
            } else {
                assert(r[i] == s[i - 1] && r[j] == s[j - 1]);
            }
        }
    } else {
        let rest = s.drop_first();
        assert(forall|i: int, j: int|
            0 <= i < j < rest.len() ==> !diff_model_before(
                #[trigger] rest[j],
                #[trigger] rest[i],
            )) by {
            assert(forall|k: int| 0 <= k < rest.len() ==> rest[k] == s[k + 1]);
        }
        lemma_insert_diff_model_sorted(rest, d);
        lemma_insert_diff_model_membership(rest, d);
        let rr = spec_insert_diff_model(rest, d);
        assert forall|k: int| 0 <= k < rr.len() implies !diff_model_before(rr[k], s[0]) by {
            if rr[k] == d {
            } else {
                assert(rest.contains(rr[k]));
                let idx = choose|idx: int| 0 <= idx < rest.len() && rest[idx] == rr[k];
                assert(s[idx + 1] == rest[idx]);
            }
        }
        assert forall|i: int, j: int| 0 <= i < j < r.len() implies !diff_model_before(
            r[j],
            r[i],
        ) by {
            if i == 0 {
                assert(r[j] == rr[j - 1]);
            } else {
                assert(r[i] == rr[i - 1] && r[j] == rr[j - 1]);
            }
        }
    }
}

proof fn lemma_insert_diff_model_membership(s: Seq<DiffModel>, d: DiffModel)
    ensures
        forall|k: int|
            0 <= k < spec_insert_diff_model(s, d).len() ==> #[trigger] spec_insert_diff_model(
                s,
                d,
            )[k] == d || s.contains(spec_insert_diff_model(s, d)[k]),
    decreases s.len(),
{
    let r = spec_insert_diff_model(s, d);
    if s.len() == 0 {
    } else if diff_model_before(d, s[0]) {
        assert forall|k: int| 0 <= k < r.len() implies r[k] == d || s.contains(r[k]) by {
            if k > 0 {
                assert(r[k] == s[k - 1]);
            }
        }
    } else {
        let rest = s.drop_first();
        lemma_insert_diff_model_membership(rest, d);
        let rr = spec_insert_diff_model(rest, d);
        assert forall|k: int| 0 <= k < r.len() implies r[k] == d || s.contains(r[k]) by {
            if k == 0 {
                assert(s.contains(s[0]));
            } else {
                assert(r[k] == rr[k - 1]);
                if rr[k - 1] != d {
                    let idx = choose|idx: int| 0 <= idx < rest.len() && rest[idx] == rr[k - 1];
                    assert(s[idx + 1] == rest[idx]);
                }
            }
        }
    }
}

/// Stable insertion sort of the generator list by (Adams filtration,
/// sphere parameter).
pub(crate) fn sort_generators(v: Vec<Generator>) -> (r: Vec<Generator>)
    ensures
        gens_view(r@) == spec_sort_gens(gens_view(v@)),
        (forall|i: int| 0 <= i < v@.len() ==> (#[trigger] v@[i]).torsion.wf()) ==> (forall|i: int|
            0 <= i < r@.len() ==> (#[trigger] r@[i]).torsion.wf()),
{
    let mut src = v;
    let mut out: Vec<Generator> = Vec::new();
    let ghost orig = src@;
    let total = src.len();
    proof {
        assert(orig.len() == total as int);
    }
    let mut taken: usize = 0;
    while src.len() > 0
        invariant
            taken + src@.len() == orig.len(),
            orig.len() <= usize::MAX,
            src@ == orig.skip(taken as int),
            gens_view(out@) == spec_sort_gens(gens_view(orig.take(taken as int))),
            (forall|i: int| 0 <= i < orig.len() ==> (#[trigger] orig[i]).torsion.wf()) ==> (
            forall|i: int| 0 <= i < out@.len() ==> (#[trigger] out@[i]).torsion.wf()),
        decreases src@.len(),
    {
        let g = src.remove(0);
        let ghost gfull = g;
        let n = out.len();
        let mut pos: usize = 0;
        while pos < n
            invariant_except_break
                n == out@.len(),
                0 <= pos <= n,
                forall|k: int| 0 <= k < pos ==> !gen_before(g@, #[trigger] gens_view(out@)[k]),
            ensures
                0 <= pos <= n,
                n == out@.len(),
                forall|k: int| 0 <= k < pos ==> !gen_before(g@, #[trigger] gens_view(out@)[k]),
                pos < n ==> gen_before(g@, gens_view(out@)[pos as int]),
            decreases n - pos,
        {
            let e = &out[pos];
            proof {
                assert(gens_view(out@)[pos as int] == out@[pos as int]@);
            }
            if g.adams_filtration < e.adams_filtration || (g.adams_filtration
                == e.adams_filtration && g.y < e.y) {
                break;
            }
            pos = pos + 1;
        }
        let ghost out_before = out@;
        proof {
            lemma_insert_gen_at_first(gens_view(out@), gfull@, pos as int);
        }
        out.insert(pos, g);
        proof {
            crate::types::lemma_gens_view_insert(out_before, pos as int, gfull);
            let t2 = orig.take(taken + 1);
            assert(t2.drop_last() =~= orig.take(taken as int));
            assert(t2.last() == orig[taken as int]);
            assert(orig[taken as int] == gfull);
            assert(gens_view(t2) =~= gens_view(t2.drop_last()).push(gfull@)) by {
                crate::types::lemma_gens_view_push(t2.drop_last(), gfull);
                assert(t2 =~= t2.drop_last().push(gfull));
            }
            assert(gens_view(t2).drop_last() =~= gens_view(orig.take(taken as int)));
            assert(gens_view(t2).last() == gfull@);
            assert(src@ =~= orig.skip(taken + 1));
        }
        taken = taken + 1;
    }
    proof {
        assert(orig.take(taken as int) =~= orig);
    }
    out
}

/// Stable insertion sort of the differential list into its page order.
pub(crate) fn sort_differentials(v: Vec<Differential>) -> (r: Vec<Differential>)
    ensures
        diffs_view(r@) == spec_sort_diffs(diffs_view(v@)),
        diffs_sorted(r@),
{
    let mut src = v;
    let mut out: Vec<Differential> = Vec::new();
    let ghost orig = src@;
    let total = src.len();
    proof {
        assert(orig.len() == total as int);
    }
    let mut taken: usize = 0;
    while src.len() > 0
        invariant
            taken + src@.len() == orig.len(),
            orig.len() <= usize::MAX,
            src@ == orig.skip(taken as int),
            diffs_view(out@) == spec_sort_diffs(diffs_view(orig.take(taken as int))),
            forall|i: int, j: int|
                0 <= i < j < diffs_view(out@).len() ==> !diff_model_before(
                    #[trigger] diffs_view(out@)[j],
                    #[trigger] diffs_view(out@)[i],
                ),
        decreases src@.len(),
    {
        let d = src.remove(0);
        let ghost dfull = d;
        let n = out.len();
        let mut pos: usize = 0;
        while pos < n
            invariant_except_break
                n == out@.len(),
                0 <= pos <= n,
                forall|k: int|
                    0 <= k < pos ==> !diff_model_before(d@, #[trigger] diffs_view(out@)[k]),
            ensures
                0 <= pos <= n,
                n == out@.len(),
                forall|k: int|
                    0 <= k < pos ==> !diff_model_before(d@, #[trigger] diffs_view(out@)[k]),
                pos < n ==> diff_model_before(d@, diffs_view(out@)[pos as int]),
            decreases n - pos,
        {
            let e = &out[pos];
            proof {
                assert(diffs_view(out@)[pos as int] == out@[pos as int]@);
            }
            if d.d < e.d || (d.d == e.d && d.coeff > e.coeff) {
                break;
            }
            pos = pos + 1;
        }
        let ghost out_before = out@;
        proof {
            lemma_insert_diff_model_at_first(diffs_view(out@), dfull@, pos as int);
            lemma_insert_diff_model_sorted(diffs_view(out@), dfull@);
        }
        out.insert(pos, d);
        proof {
            crate::types::lemma_diffs_view_insert(out_before, pos as int, dfull);
            let t2 = orig.take(taken + 1);
            assert(t2.drop_last() =~= orig.take(taken as int));
            assert(t2.last() == orig[taken as int]);
            assert(orig[taken as int] == dfull);
            assert(diffs_view(t2) =~= diffs_view(t2.drop_last()).push(dfull@)) by {
                crate::types::lemma_diffs_view_push(t2.drop_last(), dfull);
                assert(t2 =~= t2.drop_last().push(dfull));
            }
            assert(diffs_view(t2).drop_last() =~= diffs_view(orig.take(taken as int)));
            assert(diffs_view(t2).last() == dfull@);
            assert(src@ =~= orig.skip(taken + 1));
        }
        taken = taken + 1;
    }
    proof {
        assert(orig.take(taken as int) =~= orig);
        lemma_model_sorted_exec(out@);
    }
    out
}

/// Derive the algebraic data set from the parsed source tables and bring
/// it into its working order: generators sorted by (Adams filtration,
/// sphere parameter), differentials in page order, the lookup index
/// rebuilt.
pub fn generate_algebraic_data(untagged: &Vec<Untagged>, tagged: &Vec<Tagged>) -> (r: Result<
    SyntheticEHP,
    TableError,
>)
    ensures
        match r {
            Ok(data) => {
                &&& tables_ok(untagged@, tagged@)
                &&& gens_view(data.generators@) == spec_sort_gens(
                    spec_parse_gens(untagged@, tagged@),
                )
                &&& diffs_view(data.differentials@) == spec_sort_diffs(spec_parse_diffs(tagged@))
                &&& data.multiplications@.len() == 0
                &&& data.index_ok()
                &&& data.torsion_wf()
                &&& data.diffs_ordered()
            },
            Err(_) => !tables_ok(untagged@, tagged@),
        },
{
    let mut data = match parse_algebraic_data(untagged, tagged) {
        Ok(d) => d,
        Err(e) => {
            return Err(e);
        },
    };
    let gens = sort_generators(data.generators);
    let diffs = sort_differentials(data.differentials);
    data = SyntheticEHP {
        generators: gens,
        differentials: diffs,
        multiplications: data.multiplications,
        find_map: data.find_map,
    };
    data.build_find_map();
    Ok(data)
}



/// The degree-zero diagonal pair on one odd sphere: the two
/// infinity-labelled generators and the lifted differential joining them.
pub open spec fn spec_diagonal_entry(y: i32) -> (GenModel, GenModel, DiffModel) {
    (
        mk_gen(spec_name("2(\u{221e})"@, y as int), y, y, 2),
        mk_gen(spec_name("1(\u{221e})"@, y + 1 as int), (y + 1) as i32, (y + 1) as i32, 1),
        DiffModel {
            from: spec_name("1(\u{221e})"@, y + 1 as int),
            to: spec_name("2(\u{221e})"@, y as int),
            coeff: 0,
            d: 1,
            kind: Kind::Real,
            synthetic: false,
            justification: Some("Lifted AEHP differential."@),
        },
    )
}

/// The first `k` diagonal pairs with their differentials.
pub open spec fn spec_diagonal(k: nat) -> (Seq<GenModel>, Seq<DiffModel>)
    decreases k,
{
    if k == 0 {
        (Seq::empty(), Seq::empty())
    } else {
        let rest = spec_diagonal((k - 1) as nat);
        let y = (2 * (k - 1) + 1) as i32;
        let e = spec_diagonal_entry(y);
        (rest.0.push(e.0).push(e.1), rest.1.push(e.2))
    }
}

/// Append the degree-zero diagonal to the data: one pair of
/// infinity-labelled generators per odd sphere, joined by a first-page
/// lifted differential.  The differentials are appended, not
/// order-inserted, and the lookup index is left for the caller to
/// rebuild.
pub fn add_final_diagonal(data: &mut SyntheticEHP)
    ensures
        gens_view(final(data).generators@) == gens_view(old(data).generators@) + spec_diagonal(
            13,
        ).0,
        diffs_view(final(data).differentials@) == diffs_view(old(data).differentials@)
            + spec_diagonal(13).1,
        final(data).multiplications == old(data).multiplications,
        final(data).find_map == old(data).find_map,
{
    let ghost gens0 = gens_view(data.generators@);
    let ghost diffs0 = diffs_view(data.differentials@);
    proof {
        assert(gens_view(data.generators@) =~= gens0 + spec_diagonal(0).0);
        assert(diffs_view(data.differentials@) =~= diffs0 + spec_diagonal(0).1);
    }
    let mut k: usize = 0;
    while k < 13
        invariant
            0 <= k <= 13,
            gens_view(data.generators@) == gens0 + spec_diagonal(k as nat).0,
            diffs_view(data.differentials@) == diffs0 + spec_diagonal(k as nat).1,
            data.multiplications == old(data).multiplications,
            data.find_map == old(data).find_map,
        decreases 13 - k,
    {
        let y: i32 = 2 * (k as i32) + 1;
        let ghost gb = data.generators@;
        let g1 = Generator::new(make_name("2(\u{221e})", y), y, y, 2);
        let ghost g1full = g1;
        data.generators.push(g1);
        let ghost gm = data.generators@;
        let g2 = Generator::new(make_name("1(\u{221e})", y + 1), y + 1, y + 1, 1);
        let ghost g2full = g2;
        data.generators.push(g2);
        let ghost db = data.differentials@;
        let dnew = Differential {
            from: make_name("1(\u{221e})", y + 1),
            to: make_name("2(\u{221e})", y),
            coeff: 0,
            d: 1,
            kind: Kind::Real,
            synthetic: false,
            justification: Some(String::from_str("Lifted AEHP differential.")),
        };
        let ghost dfull = dnew;
        data.differentials.push(dnew);
        proof {
            crate::types::lemma_gens_view_push(gb, g1full);
            crate::types::lemma_gens_view_push(gm, g2full);
            crate::types::lemma_diffs_view_push(db, dfull);
            let e = spec_diagonal_entry(y);
            assert(g1full@ == e.0 && g2full@ == e.1 && dfull@ == e.2);
            assert(gens_view(data.generators@) =~= gens0 + spec_diagonal((k + 1) as nat).0);
            assert(diffs_view(data.differentials@) =~= diffs0 + spec_diagonal((k + 1) as nat).1);
        }
        k = k + 1;
    }
}


} // verus!
