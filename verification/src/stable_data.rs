use vstd::prelude::*;

use crate::names::make_name;
use crate::types::{
    diffs_view, mults_view, DiffModel, Differential, Generator, Kind, MultModel, Multiplication,
    SyntheticEHP, Torsion,
};
use crate::MAX_STEM;

verus! {

/// The values of the recorded stable differential table.
pub open spec fn spec_stable_diffs_table() -> Seq<DiffModel> {
    seq![
        DiffModel {
            from: "12 9 3 3 3[2]"@,
            to: "10 2 4 5 3 3 3[1]"@,
            coeff: 1,
            d: 1,
            kind: Kind::Real,
            synthetic: true,
            justification: None,
        },
        DiffModel {
            from: "2 2 4 3 3 3 6 6 5 3[2]"@,
            to: "2 2 2 2 2 2 2 2 3 5 7 3 3[1]"@,
            coeff: 2,
            d: 1,
            kind: Kind::Real,
            synthetic: true,
            justification: None,
        },
    ]
}

/// The values of the recorded stable tau-multiplication table.
pub open spec fn spec_stable_tau_table() -> Seq<MultModel> {
    seq![
        MultModel { from: "3 4 4 1 1 1[2]"@, to: "12 1 1 1[1]"@, kind: Kind::Real },
        MultModel { from: "6 5 3[2]"@, to: "6 2 3 3[2]"@, kind: Kind::Real },
        MultModel { from: "1 2 4 3 3 3[2]"@, to: "3 6 2 3 3[1]"@, kind: Kind::Real },
        MultModel { from: "3 4 4 1 1 1[4]"@, to: "12 1 1 1[3]"@, kind: Kind::Real },
        MultModel { from: "6 5 3[5]"@, to: "13 3[3]"@, kind: Kind::Real },
        MultModel { from: "6 5 3[6]"@, to: "6 2 3 3[6]"@, kind: Kind::Real },
        MultModel { from: "1 2 4 3 3 3[6]"@, to: "3 6 2 3 3[5]"@, kind: Kind::Real },
        MultModel { from: "3 4 4 1 1 1[8]"@, to: "12 1 1 1[7]"@, kind: Kind::Real },
    ]
}

/// The recorded stable torsion of each tagged class.
pub open spec fn spec_e1_table() -> Seq<(Seq<char>, Torsion)> {
    seq![
        ("6 5 3"@, Torsion::Val(1)),
        ("15"@, Torsion::Zero),
        ("5 1 2 3 3"@, Torsion::Val(2)),
        ("14 1"@, Torsion::Zero),
        ("3 4 4 1 1 1"@, Torsion::Val(2)),
        ("13 1 1"@, Torsion::Zero),
        ("1 2 4 3 3 3"@, Torsion::Val(1)),
        ("8 3 3 3"@, Torsion::Zero),
        ("2 2 4 3 3 3"@, Torsion::Val(1)),
        ("5 7 3 3"@, Torsion::Zero),
        ("1 1 2 4 3 3 3"@, Torsion::Val(1)),
        ("4 5 3 3 3"@, Torsion::Zero),
        ("5 1 2 3 4 4 1 1 1"@, Torsion::Val(1)),
        ("13 1 2 4 1 1 1"@, Torsion::Zero),
        ("3 4 4 1 1 2 4 1 1 1"@, Torsion::Val(1)),
        ("12 1 1 2 4 1 1 1"@, Torsion::Zero),
        ("1 2 4 1 1 2 4 3 3 3"@, Torsion::Val(1)),
        ("8 1 1 2 4 3 3 3"@, Torsion::Zero),
        ("3 6 2 3 4 4 1 1 1"@, Torsion::Val(1)),
        ("6 2 4 5 3 3 3"@, Torsion::Zero),
        ("2 2 4 1 1 2 4 3 3 3"@, Torsion::Val(1)),
        ("4 2 2 4 5 3 3 3"@, Torsion::Zero),
        ("1 1 2 4 1 1 2 4 3 3 3"@, Torsion::Val(1)),
        ("2 2 2 2 4 5 3 3 3"@, Torsion::Zero),
        ("4 2 2 2 4 5 3 3 3"@, Torsion::Val(1)),
        ("6 2 3 5 7 3 3"@, Torsion::Zero),
        ("2 2 2 2 2 4 5 3 3 3"@, Torsion::Val(1)),
        ("3 6 2 4 5 3 3 3"@, Torsion::Zero),
        ("2 2 2 2 3 5 7 3 3"@, Torsion::Val(2)),
        ("12 4 5 3 3 3"@, Torsion::Zero),
        ("14 13 3"@, Torsion::Val(1)),
        ("31"@, Torsion::Zero),
        ("13 11 3 3"@, Torsion::Val(1)),
        ("30 1"@, Torsion::Zero),
        ("12 9 3 3 3"@, Torsion::Val(1)),
        ("29 1 1"@, Torsion::Zero),
        ("10 2 4 5 3 3 3"@, Torsion::Val(2)),
        ("28 1 1 1"@, Torsion::Zero),
        ("7 13 1 2 4 1 1 1"@, Torsion::Val(2)),
        ("24 4 1 1 1"@, Torsion::Zero),
        ("5 8 1 1 2 4 3 3 3"@, Torsion::Val(2)),
        ("22 2 4 1 1 1"@, Torsion::Zero),
        ("4 2 2 2 2 4 5 3 3 3"@, Torsion::Val(2)),
        ("21 1 2 4 1 1 1"@, Torsion::Zero),
        ("2 2 2 2 2 2 4 5 3 3 3"@, Torsion::Val(2)),
        ("20 1 1 2 4 1 1 1"@, Torsion::Zero),
        ("6 2 3 4 4 1 1 2 4 1 1 1"@, Torsion::Val(3)),
        ("5 6 2 4 5 3 3 3"@, Torsion::Zero),
        ("5 1 2 3 4 4 1 1 2 4 1 1 1"@, Torsion::Val(3)),
        ("16 4 1 1 2 4 1 1 1"@, Torsion::Zero),
        ("3 4 4 1 1 2 4 1 1 2 4 1 1 1"@, Torsion::Val(3)),
        ("14 2 4 1 1 2 4 1 1 1"@, Torsion::Zero),
        ("3 6 2 2 4 5 3 3 3"@, Torsion::Val(1)),
        ("6 3 3 6 6 5 3"@, Torsion::Zero),
        ("2 2 2 2 2 3 5 7 3 3"@, Torsion::Val(1)),
        ("3 6 2 3 5 7 3 3"@, Torsion::Zero),
        ("2 4 1 1 2 4 1 1 2 4 3 3 3"@, Torsion::Val(3)),
        ("2 2 2 3 3 6 6 5 3"@, Torsion::Zero),
        ("1 2 4 1 1 2 4 1 1 2 4 3 3 3"@, Torsion::Val(1)),
        ("8 1 1 2 4 1 1 2 4 3 3 3"@, Torsion::Zero),
        ("11 3 5 7 7"@, Torsion::Val(2)),
        ("27 7"@, Torsion::Zero),
        ("3 6 2 3 4 4 1 1 2 4 1 1 1"@, Torsion::Val(1)),
        ("6 2 2 2 2 2 4 5 3 3 3"@, Torsion::Zero),
        ("2 2 4 1 1 2 4 1 1 2 4 3 3 3"@, Torsion::Val(1)),
        ("4 2 2 2 2 2 2 4 5 3 3 3"@, Torsion::Zero),
        ("1 1 2 4 1 1 2 4 1 1 2 4 3 3 3"@, Torsion::Val(1)),
        ("2 2 2 2 2 2 2 2 4 5 3 3 3"@, Torsion::Zero),
        ("3 5 6 2 4 5 3 3 3"@, Torsion::Val(1)),
        ("6 5 2 3 5 7 7"@, Torsion::Zero),
        ("2 2 2 2 3 3 6 6 5 3"@, Torsion::Val(1)),
        ("3 6 3 3 6 6 5 3"@, Torsion::Zero),
        ("4 2 2 2 2 2 2 2 4 5 3 3 3"@, Torsion::Val(1)),
        ("6 2 2 2 2 2 3 5 7 3 3"@, Torsion::Zero),
        ("2 2 2 2 2 2 2 2 2 4 5 3 3 3"@, Torsion::Val(1)),
        ("3 6 2 2 2 2 2 4 5 3 3 3"@, Torsion::Zero),
        ("6 2 2 2 2 2 2 4 5 3 3 3"@, Torsion::Val(3)),
        ("4 7 3 3 6 6 5 3"@, Torsion::Zero),
        ("13 2 3 5 7 7"@, Torsion::Val(3)),
        ("23 15"@, Torsion::Zero),
        ("7 12 4 5 3 3 3"@, Torsion::Val(3)),
        ("22 13 3"@, Torsion::Zero),
        ("3 5 7 3 5 7 7"@, Torsion::Val(2)),
        ("21 11 3 3"@, Torsion::Zero),
        ("5 6 3 3 6 6 5 3"@, Torsion::Val(1)),
        ("8 12 9 3 3 3"@, Torsion::Zero),
        ("3 5 6 2 3 5 7 3 3"@, Torsion::Val(1)),
        ("6 9 3 6 6 5 3"@, Torsion::Zero),
        ("2 2 4 3 3 3 6 6 5 3"@, Torsion::Val(1)),
        ("3 6 5 2 3 5 7 7"@, Torsion::Zero),
        ("2 2 2 2 2 2 2 2 3 5 7 3 3"@, Torsion::Val(3)),
        ("2 3 5 5 3 6 6 5 3"@, Torsion::Zero),
        ("6 2 3 4 4 1 1 2 4 1 1 2 4 1 1 1"@, Torsion::Val(3)),
        ("5 6 2 2 2 2 2 4 5 3 3 3"@, Torsion::Zero),
        ("5 1 2 3 4 4 1 1 2 4 1 1 2 4 1 1 1"@, Torsion::Val(1)),
        ("13 1 2 4 1 1 2 4 1 1 2 4 1 1 1"@, Torsion::Zero),
        ("3 4 4 1 1 2 4 1 1 2 4 1 1 2 4 1 1 1"@, Torsion::Val(1)),
        ("12 1 1 2 4 1 1 2 4 1 1 2 4 1 1 1"@, Torsion::Zero),
        ("6 2 3 4 4 1 1 2 4 1 1 2 4 1 1 1"@, Torsion::Val(3)),
        ("5 6 2 2 2 2 2 4 5 3 3 3"@, Torsion::Zero),
    ]
}


/// The torsion a generator ends with after the stable table is applied:
/// the recorded value of the last tag whose name on some sphere is the
/// generator's, else what it had.
pub open spec fn spec_e1_torsion(name: Seq<char>, prev: Torsion, table: Seq<(Seq<char>, Torsion)>) -> Torsion
    decreases table.len(),
{
    if table.len() == 0 {
        prev
    } else {
        let before = spec_e1_torsion(name, prev, table.drop_last());
        let e = table.last();
        if exists|sp: int| 1 <= sp < MAX_STEM && name == crate::names::spec_name(e.0, sp) {
            e.1
        } else {
            before
        }
    }
}

/// Record the known stable torsion of the named tags on every sphere
/// they appear on: each held generator ends with the torsion the table
/// assigns its name, and nothing else about any generator changes.
pub fn synthetic_stable_e1(data: &mut SyntheticEHP)
    requires
        old(data).index_ok(),
        old(data).names_unique(),
    ensures
        final(data).generators@.len() == old(data).generators@.len(),
        forall|i: int|
            0 <= i < final(data).generators@.len() ==> {
                let g = #[trigger] final(data).generators@[i];
                let h = old(data).generators@[i];
                &&& g.name@ == h.name@
                &&& g.x == h.x
                &&& g.y == h.y
                &&& g.adams_filtration == h.adams_filtration
                &&& g.induced_name@ == h.induced_name@
                &&& g.torsion == spec_e1_torsion(h.name@, h.torsion, spec_e1_table())
            },
        final(data).differentials == old(data).differentials,
        final(data).multiplications == old(data).multiplications,
        final(data).find_map == old(data).find_map,
        final(data).index_ok(),
        final(data).names_unique(),
{
    let entries: Vec<(&str, Torsion)> = vec![

        ("6 5 3", Torsion::Val(1)),
        ("15", Torsion::Zero),
        ("5 1 2 3 3", Torsion::Val(2)),
        ("14 1", Torsion::Zero),
        ("3 4 4 1 1 1", Torsion::Val(2)),
        ("13 1 1", Torsion::Zero),
        ("1 2 4 3 3 3", Torsion::Val(1)),
        ("8 3 3 3", Torsion::Zero),
        ("2 2 4 3 3 3", Torsion::Val(1)),
        ("5 7 3 3", Torsion::Zero),
        ("1 1 2 4 3 3 3", Torsion::Val(1)),
        ("4 5 3 3 3", Torsion::Zero),
        ("5 1 2 3 4 4 1 1 1", Torsion::Val(1)),
        ("13 1 2 4 1 1 1", Torsion::Zero),
        ("3 4 4 1 1 2 4 1 1 1", Torsion::Val(1)),
        ("12 1 1 2 4 1 1 1", Torsion::Zero),
        ("1 2 4 1 1 2 4 3 3 3", Torsion::Val(1)),
        ("8 1 1 2 4 3 3 3", Torsion::Zero),
        ("3 6 2 3 4 4 1 1 1", Torsion::Val(1)),
        ("6 2 4 5 3 3 3", Torsion::Zero),
        ("2 2 4 1 1 2 4 3 3 3", Torsion::Val(1)),
        ("4 2 2 4 5 3 3 3", Torsion::Zero),
        ("1 1 2 4 1 1 2 4 3 3 3", Torsion::Val(1)),
        ("2 2 2 2 4 5 3 3 3", Torsion::Zero),
        ("4 2 2 2 4 5 3 3 3", Torsion::Val(1)),
        ("6 2 3 5 7 3 3", Torsion::Zero),
        ("2 2 2 2 2 4 5 3 3 3", Torsion::Val(1)),
        ("3 6 2 4 5 3 3 3", Torsion::Zero),
        ("2 2 2 2 3 5 7 3 3", Torsion::Val(2)),
        ("12 4 5 3 3 3", Torsion::Zero),
        ("14 13 3", Torsion::Val(1)),
        ("31", Torsion::Zero),
        ("13 11 3 3", Torsion::Val(1)),
        ("30 1", Torsion::Zero),
        ("12 9 3 3 3", Torsion::Val(1)),
        ("29 1 1", Torsion::Zero),
        ("10 2 4 5 3 3 3", Torsion::Val(2)),
        ("28 1 1 1", Torsion::Zero),
        ("7 13 1 2 4 1 1 1", Torsion::Val(2)),
        ("24 4 1 1 1", Torsion::Zero),
        ("5 8 1 1 2 4 3 3 3", Torsion::Val(2)),
        ("22 2 4 1 1 1", Torsion::Zero),
        ("4 2 2 2 2 4 5 3 3 3", Torsion::Val(2)),
        ("21 1 2 4 1 1 1", Torsion::Zero),
        ("2 2 2 2 2 2 4 5 3 3 3", Torsion::Val(2)),
        ("20 1 1 2 4 1 1 1", Torsion::Zero),
        ("6 2 3 4 4 1 1 2 4 1 1 1", Torsion::Val(3)),
        ("5 6 2 4 5 3 3 3", Torsion::Zero),
        ("5 1 2 3 4 4 1 1 2 4 1 1 1", Torsion::Val(3)),
        ("16 4 1 1 2 4 1 1 1", Torsion::Zero),
        ("3 4 4 1 1 2 4 1 1 2 4 1 1 1", Torsion::Val(3)),
        ("14 2 4 1 1 2 4 1 1 1", Torsion::Zero),
        ("3 6 2 2 4 5 3 3 3", Torsion::Val(1)),
        ("6 3 3 6 6 5 3", Torsion::Zero),
        ("2 2 2 2 2 3 5 7 3 3", Torsion::Val(1)),
        ("3 6 2 3 5 7 3 3", Torsion::Zero),
        ("2 4 1 1 2 4 1 1 2 4 3 3 3", Torsion::Val(3)),
        ("2 2 2 3 3 6 6 5 3", Torsion::Zero),
        ("1 2 4 1 1 2 4 1 1 2 4 3 3 3", Torsion::Val(1)),
        ("8 1 1 2 4 1 1 2 4 3 3 3", Torsion::Zero),
        ("11 3 5 7 7", Torsion::Val(2)),
        ("27 7", Torsion::Zero),
        ("3 6 2 3 4 4 1 1 2 4 1 1 1", Torsion::Val(1)),
        ("6 2 2 2 2 2 4 5 3 3 3", Torsion::Zero),
        ("2 2 4 1 1 2 4 1 1 2 4 3 3 3", Torsion::Val(1)),
        ("4 2 2 2 2 2 2 4 5 3 3 3", Torsion::Zero),
        ("1 1 2 4 1 1 2 4 1 1 2 4 3 3 3", Torsion::Val(1)),
        ("2 2 2 2 2 2 2 2 4 5 3 3 3", Torsion::Zero),
        ("3 5 6 2 4 5 3 3 3", Torsion::Val(1)),
        ("6 5 2 3 5 7 7", Torsion::Zero),
        ("2 2 2 2 3 3 6 6 5 3", Torsion::Val(1)),
        ("3 6 3 3 6 6 5 3", Torsion::Zero),
        ("4 2 2 2 2 2 2 2 4 5 3 3 3", Torsion::Val(1)),
        ("6 2 2 2 2 2 3 5 7 3 3", Torsion::Zero),
        ("2 2 2 2 2 2 2 2 2 4 5 3 3 3", Torsion::Val(1)),
        ("3 6 2 2 2 2 2 4 5 3 3 3", Torsion::Zero),
        ("6 2 2 2 2 2 2 4 5 3 3 3", Torsion::Val(3)),
        ("4 7 3 3 6 6 5 3", Torsion::Zero),
        ("13 2 3 5 7 7", Torsion::Val(3)),
        ("23 15", Torsion::Zero),
        ("7 12 4 5 3 3 3", Torsion::Val(3)),
        ("22 13 3", Torsion::Zero),
        ("3 5 7 3 5 7 7", Torsion::Val(2)),
        ("21 11 3 3", Torsion::Zero),
        ("5 6 3 3 6 6 5 3", Torsion::Val(1)),
        ("8 12 9 3 3 3", Torsion::Zero),
        ("3 5 6 2 3 5 7 3 3", Torsion::Val(1)),
        ("6 9 3 6 6 5 3", Torsion::Zero),
        ("2 2 4 3 3 3 6 6 5 3", Torsion::Val(1)),
        ("3 6 5 2 3 5 7 7", Torsion::Zero),
        ("2 2 2 2 2 2 2 2 3 5 7 3 3", Torsion::Val(3)),
        ("2 3 5 5 3 6 6 5 3", Torsion::Zero),
        ("6 2 3 4 4 1 1 2 4 1 1 2 4 1 1 1", Torsion::Val(3)),
        ("5 6 2 2 2 2 2 4 5 3 3 3", Torsion::Zero),
        ("5 1 2 3 4 4 1 1 2 4 1 1 2 4 1 1 1", Torsion::Val(1)),
        ("13 1 2 4 1 1 2 4 1 1 2 4 1 1 1", Torsion::Zero),
        ("3 4 4 1 1 2 4 1 1 2 4 1 1 2 4 1 1 1", Torsion::Val(1)),
        ("12 1 1 2 4 1 1 2 4 1 1 2 4 1 1 1", Torsion::Zero),
        ("6 2 3 4 4 1 1 2 4 1 1 2 4 1 1 1", Torsion::Val(3)),
        ("5 6 2 2 2 2 2 4 5 3 3 3", Torsion::Zero),
    ];
    let ghost tbl = spec_e1_table();
    proof {
        assert(entries@.map_values(|p: (&str, Torsion)| (p.0@, p.1)) =~~= tbl);
    }
    let n = entries.len();
    let mut i: usize = 0;
    while i < n
        invariant
            n == entries@.len(),
            0 <= i <= n,
            entries@.map_values(|p: (&str, Torsion)| (p.0@, p.1)) == tbl,
            tbl.len() == n,
            data.index_ok(),
            data.names_unique(),
            data.generators@.len() == old(data).generators@.len(),
            forall|q: int|
                0 <= q < data.generators@.len() ==> {
                    let g = #[trigger] data.generators@[q];
                    let h = old(data).generators@[q];
                    &&& g.name@ == h.name@
                    &&& g.x == h.x
                    &&& g.y == h.y
                    &&& g.adams_filtration == h.adams_filtration
                    &&& g.induced_name@ == h.induced_name@
                    &&& g.torsion == spec_e1_torsion(h.name@, h.torsion, tbl.take(i as int))
                },
            data.differentials == old(data).differentials,
            data.multiplications == old(data).multiplications,
            data.find_map == old(data).find_map,
        decreases n - i,
    {
        let tag = entries[i].0;
        let tor = entries[i].1;
        proof {
            assert(entries@.map_values(|p: (&str, Torsion)| (p.0@, p.1))[i as int] == (
                entries@[i as int].0@,
                entries@[i as int].1,
            ));
            assert(tag@ == tbl[i as int].0 && tor == tbl[i as int].1);
        }
        let mut s: i32 = 1;
        while s < MAX_STEM
            invariant
                1 <= s <= MAX_STEM,
                i < n,
                tbl.len() == n,
                tag@ == tbl[i as int].0,
                tor == tbl[i as int].1,
                data.index_ok(),
                data.names_unique(),
                data.generators@.len() == old(data).generators@.len(),
                forall|q: int|
                    0 <= q < data.generators@.len() ==> {
                        let g = #[trigger] data.generators@[q];
                        let h = old(data).generators@[q];
                        &&& g.name@ == h.name@
                        &&& g.x == h.x
                        &&& g.y == h.y
                        &&& g.adams_filtration == h.adams_filtration
                        &&& g.induced_name@ == h.induced_name@
                        &&& g.torsion == if (exists|sp: int|
                            1 <= sp < s && h.name@ == crate::names::spec_name(
                                tbl[i as int].0,
                                sp,
                            )) {
                            tbl[i as int].1
                        } else {
                            spec_e1_torsion(h.name@, h.torsion, tbl.take(i as int))
                        }
                    },
                data.differentials == old(data).differentials,
                data.multiplications == old(data).multiplications,
                data.find_map == old(data).find_map,
            decreases MAX_STEM - s,
    {
            let gen_name = crate::names::make_name(tag, s);
            let ghost before = data.generators@;
            match data.find_mut(&gen_name) {
                Some(g) => {
                    g.torsion = tor;
                },
                None => {},
            }
            proof {
                assert forall|q: int| 0 <= q < data.generators@.len() implies {
                    let g = #[trigger] data.generators@[q];
                    let h = old(data).generators@[q];
                    &&& g.name@ == h.name@
                    &&& g.x == h.x
                    &&& g.y == h.y
                    &&& g.adams_filtration == h.adams_filtration
                    &&& g.induced_name@ == h.induced_name@
                    &&& g.torsion == if (exists|sp: int|
                        1 <= sp < s + 1 && h.name@ == crate::names::spec_name(
                            tbl[i as int].0,
                            sp,
                        )) {
                        tbl[i as int].1
                    } else {
                        spec_e1_torsion(h.name@, h.torsion, tbl.take(i as int))
                    }
                } by {
                    let g = data.generators@[q];
                    let h = old(data).generators@[q];
                    if g != before[q] {
                        assert(g.torsion == tor);
                        assert(before[q].name@ == gen_name@);
                        assert(h.name@ == crate::names::spec_name(tbl[i as int].0, s as int));
                    } else {
                        if h.name@ == crate::names::spec_name(tbl[i as int].0, s as int) {
                            // the named generator exists at this index, so
                            // the lookup found and rewrote exactly it
                            lemma_unique_torsion_update(before, data.generators@, q, gen_name@, tor);
                        }
                    }
                }
            }
            s = s + 1;
        }
        proof {
            let t2 = tbl.take(i + 1);
            assert(t2.drop_last() =~= tbl.take(i as int));
            assert(t2.last() == tbl[i as int]);
            assert forall|q: int| 0 <= q < data.generators@.len() implies {
                let g = #[trigger] data.generators@[q];
                let h = old(data).generators@[q];
                g.torsion == spec_e1_torsion(h.name@, h.torsion, t2)
            } by {
                let h = old(data).generators@[q];
                if exists|sp: int|
                    1 <= sp < MAX_STEM && h.name@ == crate::names::spec_name(
                        tbl[i as int].0,
                        sp,
                    ) {
                } else {
                }
            }
        }
        i = i + 1;
    }
    proof {
        assert(tbl.take(n as int) =~= tbl);
    }
}

/// When exactly one row carries a name and the lookup rewrote some row of
/// that name, an unchanged row of that name is the rewritten one.
proof fn lemma_unique_torsion_update(
    before: Seq<Generator>,
    after: Seq<Generator>,
    q: int,
    name: Seq<char>,
    tor: Torsion,
)
    requires
        before.len() == after.len(),
        0 <= q < before.len(),
        before[q].name@ == name,
        after[q] == before[q],
        forall|a: int, b: int|
            0 <= a < b < before.len() ==> #[trigger] before[a].name@ != #[trigger] before[b].name@,
        exists|j: int|
            0 <= j < before.len() && before[j].name@ == name && after =~= before.update(
                j,
                after[j],
            ) && #[trigger] after[j].torsion == tor,
    ensures
        after[q].torsion == tor,
{
    let j = choose|j: int|
        0 <= j < before.len() && before[j].name@ == name && after =~= before.update(
            j,
            after[j],
        ) && #[trigger] after[j].torsion == tor;
    if j != q {
        if j < q {
            assert(before[j].name@ != before[q].name@);
        } else {
            assert(before[q].name@ != before[j].name@);
        }
        assert(false);
    }
}

/// Stable differentials recorded beside the replayed tables.
pub fn get_stable_diffs() -> (r: Vec<Differential>)
    ensures
        diffs_view(r@) == spec_stable_diffs_table(),
        r@.len() == 2,
{
    let r = vec![
        Differential {
            from: String::from_str("12 9 3 3 3[2]"),
            to: String::from_str("10 2 4 5 3 3 3[1]"),
            coeff: 1,
            d: 1,
            kind: Kind::Real,
            synthetic: true,
            justification: None,
        },
        Differential {
            from: String::from_str("2 2 4 3 3 3 6 6 5 3[2]"),
            to: String::from_str("2 2 2 2 2 2 2 2 3 5 7 3 3[1]"),
            coeff: 2,
            d: 1,
            kind: Kind::Real,
            synthetic: true,
            justification: None,
        },
    ];
    proof {
        assert(diffs_view(r@) =~~= spec_stable_diffs_table());
    }
    r
}

/// Stable tau multiplications recorded beside the replayed tables.
pub fn get_stable_tau_mults() -> (r: Vec<Multiplication>)
    ensures
        mults_view(r@) == spec_stable_tau_table(),
        r@.len() == 8,
{
    let r = vec![
        Multiplication {
            from: String::from_str("3 4 4 1 1 1[2]"),
            to: String::from_str("12 1 1 1[1]"),
            kind: Kind::Real,
        },
        Multiplication {
            from: String::from_str("6 5 3[2]"),
            to: String::from_str("6 2 3 3[2]"),
            kind: Kind::Real,
        },
        Multiplication {
            from: String::from_str("1 2 4 3 3 3[2]"),
            to: String::from_str("3 6 2 3 3[1]"),
            kind: Kind::Real,
        },
        Multiplication {
            from: String::from_str("3 4 4 1 1 1[4]"),
            to: String::from_str("12 1 1 1[3]"),
            kind: Kind::Real,
        },
        Multiplication {
            from: String::from_str("6 5 3[5]"),
            to: String::from_str("13 3[3]"),
            kind: Kind::Real,
        },
        Multiplication {
            from: String::from_str("6 5 3[6]"),
            to: String::from_str("6 2 3 3[6]"),
            kind: Kind::Real,
        },
        Multiplication {
            from: String::from_str("1 2 4 3 3 3[6]"),
            to: String::from_str("3 6 2 3 3[5]"),
            kind: Kind::Real,
        },
        Multiplication {
            from: String::from_str("3 4 4 1 1 1[8]"),
            to: String::from_str("12 1 1 1[7]"),
            kind: Kind::Real,
        },
    ];
    proof {
        assert(mults_view(r@) =~~= spec_stable_tau_table());
    }
    r
}

} // verus!
