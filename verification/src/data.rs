use vstd::prelude::*;

use crate::types::{
    diffs_view, mults_view, DiffModel, Differential, Kind, MultModel, Multiplication,
};

verus! {

/// The values of the recorded differential table.
pub open spec fn spec_diffs_table() -> Seq<DiffModel> {
    seq![
        DiffModel {
            from: "[15]"@,
            to: "5 3[6]"@,
            coeff: 1,
            d: 9,
            kind: Kind::Real,
            synthetic: true,
            justification: Some("Stable Diff"@),
        },
        DiffModel {
            from: "1[14]"@,
            to: "1 2 3 3[5]"@,
            coeff: 2,
            d: 9,
            kind: Kind::Real,
            synthetic: true,
            justification: Some("Stable Diff"@),
        },
        DiffModel {
            from: "1 1[13]"@,
            to: "4 4 1 1 1[3]"@,
            coeff: 2,
            d: 10,
            kind: Kind::Real,
            synthetic: true,
            justification: Some("Stable Diff"@),
        },
        DiffModel {
            from: "3 3 3[8]"@,
            to: "2 4 3 3 3[1]"@,
            coeff: 1,
            d: 7,
            kind: Kind::Real,
            synthetic: true,
            justification: Some("Stable Diff"@),
        },
        DiffModel {
            from: "5 3 3 3[4]"@,
            to: "1 2 4 3 3 3[1]"@,
            coeff: 1,
            d: 3,
            kind: Kind::Real,
            synthetic: true,
            justification: Some("Stable Diff"@),
        },
        DiffModel {
            from: "7 3 3[5]"@,
            to: "2 4 3 3 3[2]"@,
            coeff: 1,
            d: 3,
            kind: Kind::Real,
            synthetic: true,
            justification: Some("Stable Diff"@),
        },
        DiffModel {
            from: "1 2 4 1 1 1[13]"@,
            to: "1 2 3 4 4 1 1 1[5]"@,
            coeff: 1,
            d: 8,
            kind: Kind::Real,
            synthetic: true,
            justification: Some("Stable Diff"@),
        },
        DiffModel {
            from: "1 1 2 4 1 1 1[12]"@,
            to: "4 4 1 1 2 4 1 1 1[3]"@,
            coeff: 1,
            d: 9,
            kind: Kind::Real,
            synthetic: true,
            justification: Some("Stable Diff"@),
        },
        DiffModel {
            from: "7 3 3 3[4]"@,
            to: "1 2 4 3 3 3[3]"@,
            coeff: 1,
            d: 1,
            kind: Kind::Real,
            synthetic: true,
            justification: Some("If this diff does not exist, we would have an an element of AF 7 in stem 21 of the 3 sphere. But we know there is no such element."@),
        },
        DiffModel {
            from: "6 5 3[8]"@,
            to: "5 1 2 3 3[7]"@,
            coeff: 1,
            d: 1,
            kind: Kind::Real,
            synthetic: true,
            justification: Some("If this diff does not exists, we would have an element with AF 3 on the algebraic 9 sphere."@),
        },
        DiffModel {
            from: "6 2 3 3[8]"@,
            to: "2 4 3 3 3[6]"@,
            coeff: 1,
            d: 2,
            kind: Kind::Real,
            synthetic: true,
            justification: Some("Geometric 9 - 13 Sphere needs a generator killed. This is the only viable differential."@),
        },
        DiffModel {
            from: "2 4 3 3 3[8]"@,
            to: "3 6 2 3 3[5]"@,
            coeff: 0,
            d: 3,
            kind: Kind::Real,
            synthetic: true,
            justification: Some("We need the differential here such that the convergence of the synthetic SS is coherent with the algebraic sphere. No other differential could satisfy this."@),
        },
        DiffModel {
            from: "4 1 1 1[16]"@,
            to: "3 4 4 1 1 1[8]"@,
            coeff: 0,
            d: 8,
            kind: Kind::Real,
            synthetic: true,
            justification: Some("We need the differential here such that the convergence of the synthetic SS is coherent with the algebraic sphere. No other differential could satisfy this."@),
        },
        DiffModel {
            from: "4 1 1 1[16]"@,
            to: "12 1 1 1[7]"@,
            coeff: 0,
            d: 9,
            kind: Kind::Real,
            synthetic: true,
            justification: Some("We need the differential here such that the convergence of the synthetic SS is coherent with the algebraic sphere. No other differential could satisfy this. This one 'represents the same' as the other originating from this differential."@),
        },
        DiffModel {
            from: "1 1 1[20]"@,
            to: "4 4 1 1 1[11]"@,
            coeff: 0,
            d: 9,
            kind: Kind::Real,
            synthetic: true,
            justification: Some("We need the differential here such that the convergence of the synthetic SS is coherent with the algebraic sphere. No other differential could satisfy this."@),
        },
        DiffModel {
            from: "1 1[21]"@,
            to: "1 2 3 3[13]"@,
            coeff: 0,
            d: 8,
            kind: Kind::Real,
            synthetic: true,
            justification: Some("We need the differential here such that the convergence of the synthetic SS is coherent with the algebraic sphere. No other differential could satisfy this."@),
        },
        DiffModel {
            from: "7 7[10]"@,
            to: "13 3[7]"@,
            coeff: 0,
            d: 3,
            kind: Kind::Real,
            synthetic: true,
            justification: Some("We need the differential here such that the convergence of the synthetic SS is coherent with the algebraic sphere. No other differential could satisfy this."@),
        },
        DiffModel {
            from: "12 1 1 1[9]"@,
            to: "2 3 4 4 1 1 1[7]"@,
            coeff: 2,
            d: 2,
            kind: Kind::Real,
            synthetic: true,
            justification: Some("One geometric homotopy group needs to die on this sphere. Also on the 11 sphere there will be a diff from a 2-torsion element to this, meaning this differential must exist to make the Z[τ] structure work out"@),
        },
        DiffModel {
            from: "6 2 3 3[10]"@,
            to: "3 6 2 3 3[6]"@,
            coeff: 1,
            d: 4,
            kind: Kind::Real,
            synthetic: true,
            justification: Some("We need the differential here such that the convergence of the synthetic SS is coherent with the algebraic sphere. No other differential could satisfy this. Also this differential should exist together with the originating from this cell."@),
        },
        DiffModel {
            from: "6 5 3[10]"@,
            to: "3 6 2 3 3[6]"@,
            coeff: 0,
            d: 4,
            kind: Kind::Real,
            synthetic: true,
            justification: Some("We need the differential here such that the convergence of the synthetic SS is coherent with the algebraic sphere. No other differential could satisfy this. Also this differential should exist together with the originating from this cell."@),
        },
        DiffModel {
            from: "2 3 5 7 3 3[2]"@,
            to: "2 4 1 1 2 4 3 3 3[1]"@,
            coeff: 2,
            d: 1,
            kind: Kind::Real,
            synthetic: true,
            justification: Some("We need an Adams differential on the 3 sphere. The only possibilities are from this element or the element in AF 5. But the element in AF 5 will be killed by an AEHP, meaning it could not support a differential as the target survives to E_infinity."@),
        },
        DiffModel {
            from: "3 5 7 3 3[4]"@,
            to: "2 2 4 5 3 3 3[2]"@,
            coeff: 1,
            d: 2,
            kind: Kind::Real,
            synthetic: true,
            justification: Some("This differential both is needed for the geometric homotopy groups and is the only possible differential which can repair the possible torsion problem."@),
        },
        DiffModel {
            from: "3 6 2 3 3[8]"@,
            to: "2 4 5 3 3 3[4]"@,
            coeff: 1,
            d: 4,
            kind: Kind::Real,
            synthetic: true,
            justification: Some("We need a unstable differential which does not survive stably."@),
        },
        DiffModel {
            from: "1 1 2 4 3 3 3[8]"@,
            to: "2 4 1 1 2 4 3 3 3[1]"@,
            coeff: 1,
            d: 7,
            kind: Kind::Real,
            synthetic: true,
            justification: Some("Together with the other differential with this target it represents the stable differential in these stems."@),
        },
        DiffModel {
            from: "6 2 3 3[11]"@,
            to: "3 6 2 3 3[7]"@,
            coeff: 0,
            d: 4,
            kind: Kind::Real,
            synthetic: true,
            justification: Some("Algebraicly we need to this element to die from this sphere, this is the only possibility."@),
        },
        DiffModel {
            from: "3 3 3[16]"@,
            to: "2 4 3 3 3[9]"@,
            coeff: 0,
            d: 7,
            kind: Kind::Real,
            synthetic: true,
            justification: Some("Algebraicly we need to this element to die from this sphere, this is the only possibility."@),
        },
        DiffModel {
            from: "2 2 2 4 5 3 3 3[2]"@,
            to: "1 2 4 1 1 2 4 3 3 3[1]"@,
            coeff: 1,
            d: 1,
            kind: Kind::Real,
            synthetic: true,
            justification: Some("We need this differential to correct the stable adams differential in this range"@),
        },
        DiffModel {
            from: "2 2 4 5 3 3 3[4]"@,
            to: "2 4 1 1 2 4 3 3 3[2]"@,
            coeff: 1,
            d: 2,
            kind: Kind::Real,
            synthetic: true,
            justification: Some("Only possible place to support this stable adams differential"@),
        },
        DiffModel {
            from: "3 5 7 3 3[5]"@,
            to: "6 2 3 4 4 1 1 1[3]"@,
            coeff: 2,
            d: 2,
            kind: Kind::Real,
            synthetic: true,
            justification: Some("We need one more "@),
        },
        DiffModel {
            from: "2 4 5 3 3 3[6]"@,
            to: "6 2 3 4 4 1 1 1[3]"@,
            coeff: 1,
            d: 3,
            kind: Kind::Real,
            synthetic: true,
            justification: Some("We need the AF 9 element to be the correct torsion. And stem 26 needs this element in AF 6."@),
        },
        DiffModel {
            from: "7 7[12]"@,
            to: "11 7[7]"@,
            coeff: 0,
            d: 5,
            kind: Kind::Real,
            synthetic: true,
            justification: Some("Algebraicly we need an element in AF 3 to die. We cannot hit 7 7[11] as we already hit something else on the E1 page."@),
        },
        DiffModel {
            from: "6 2 3 3[12]"@,
            to: "2 4 3 3 3[10]"@,
            coeff: 2,
            d: 2,
            kind: Kind::Real,
            synthetic: true,
            justification: Some("Algebraicly we need an element in AF 5 to die. It also must come from this AF 4 + AF 3 element. The other AF 5 element 3 5 7 7[3] will get killed later and we must have zero surviving elements in AF 5."@),
        },
        DiffModel {
            from: "6 5 3[12]"@,
            to: "2 4 3 3 3[10]"@,
            coeff: 1,
            d: 2,
            kind: Kind::Real,
            synthetic: true,
            justification: Some("Algebraicly we need an element in AF 5 to die. It also must come from this AF 4 + AF 3 element. The other AF 5 element 3 5 7 7[3] will get killed later and we must have zero surviving elements in AF 5."@),
        },
        DiffModel {
            from: "2 3 5 7 3 3[4]"@,
            to: "2 4 1 1 2 4 3 3 3[3]"@,
            coeff: 2,
            d: 1,
            kind: Kind::Real,
            synthetic: true,
            justification: Some("The target of this differential is the only one which could represent an unstable differential, as it should also be killed on the 6 sphere. Only the element in degree 7 could support this differential."@),
        },
        DiffModel {
            from: "7 6 2 3 3[6]"@,
            to: "5 5 7 3 3[3]"@,
            coeff: 0,
            d: 3,
            kind: Kind::Real,
            synthetic: true,
            justification: Some("Algebraicly we need an element in AF 6 to die. We only need to kill this from the 7 sphere so the other AF 5 element which could support this diff is ruled out."@),
        },
        DiffModel {
            from: "3 6 2 3 3[10]"@,
            to: "2 4 5 3 3 3[6]"@,
            coeff: 0,
            d: 4,
            kind: Kind::Real,
            synthetic: true,
            justification: Some("We need an AF 6 element to die. This is the only element which can support one on this sphere. TODO: Why not target the AF6 element on the seven sphere?"@),
        },
        DiffModel {
            from: "2 4 3 3 3[12]"@,
            to: "3 6 2 3 3[9]"@,
            coeff: 0,
            d: 3,
            kind: Kind::Real,
            synthetic: true,
            justification: Some("We need an AF 6 element to die. This is the only element which can support one on this sphere. TODO: Why not target the AF6 element in y=3?"@),
        },
        DiffModel {
            from: "2 4 1 1 1[18]"@,
            to: "12 1 1 1[11]"@,
            coeff: 0,
            d: 7,
            kind: Kind::Real,
            synthetic: true,
            justification: Some("We need an AF 5 element to die. The tau multiplication also implies that this element should be the one to kill it. Also the other AF 4 element here cannot support the differential as it is killed later."@),
        },
        DiffModel {
            from: "8 4 1 1 2 4 1 1 1[5]"@,
            to: "2 3 4 4 1 1 2 4 1 1 1[3]"@,
            coeff: 1,
            d: 2,
            kind: Kind::Real,
            synthetic: true,
            justification: Some("There is an induced differential from AEHP, which is now from torsion to torsion free. This implies that we need to make its target torsion as well! There is only one element which can do this, and this also gives us a unstable differential!"@),
        },
        DiffModel {
            from: "2 4 5 3 3 3[8]"@,
            to: "2 4 1 1 2 4 3 3 3[4]"@,
            coeff: 0,
            d: 4,
            kind: Kind::Real,
            synthetic: true,
            justification: Some("Need to fix the algebraic convergence and delete an AF 8 element. There is only one AF 7 element which can do this."@),
        },
        DiffModel {
            from: "3 6 2 3 3[11]"@,
            to: "1 2 3 4 4 1 1 1[10]"@,
            coeff: 2,
            d: 1,
            kind: Kind::Real,
            synthetic: true,
            justification: Some("On the 13 sphere we need to kill the AF 7 element on y=5. To do this we need an element in degree 6 on the 13 sphere. The only element which can do this is 2 3 4 4 1 1 1[12]. This element will be made by having an unstable differential from 3 6 2 3 3[11] to 1 2 3 4 4 1 1 1[10]."@),
        },
        DiffModel {
            from: "2 3 4 4 1 1 1[12]"@,
            to: "6 2 3 4 4 1 1 1[5]"@,
            coeff: 0,
            d: 7,
            kind: Kind::Real,
            synthetic: true,
            justification: Some("On the 13 sphere we need to kill the AF 7 element on y=5, the other AF 7 element can not be reached. To do this we need an element in degree 6 on the 13 sphere. The only element which can do this is 2 3 4 4 1 1 1[12]. This element will be made by having an unstable differential from 3 6 2 3 3[11] to 1 2 3 4 4 1 1 1[10]."@),
        },
        DiffModel {
            from: "2 4 3 3 3[13]"@,
            to: "3 5 7 3 3[6]"@,
            coeff: 0,
            d: 7,
            kind: Kind::Real,
            synthetic: true,
            justification: Some("We need an algebraic element in AF 6 to die. These are the only possible target and source"@),
        },
        DiffModel {
            from: "12 1 1 1[13]"@,
            to: "2 3 4 4 1 1 1[11]"@,
            coeff: 2,
            d: 2,
            kind: Kind::Real,
            synthetic: true,
            justification: Some("We need a differential here to not have a torsion to torsion free map on the next sphere. This is the only choice"@),
        },
        DiffModel {
            from: "6 2 3 3[14]"@,
            to: "6 6 5 3[7]"@,
            coeff: 1,
            d: 7,
            kind: Kind::Real,
            synthetic: true,
            justification: Some("We need a differential here to not have a torsion to torsion free map on the next sphere. This is the only choice"@),
        },
        DiffModel {
            from: "7 7[14]"@,
            to: "13 3[11]"@,
            coeff: 0,
            d: 3,
            kind: Kind::Real,
            synthetic: true,
            justification: Some("We need an AF3 element to die on the 16 sphere, this is the only choice."@),
        },
        DiffModel {
            from: "2 2 2 4 5 3 3 3[4]"@,
            to: "1 2 4 1 1 2 4 3 3 3[3]"@,
            coeff: 1,
            d: 1,
            kind: Kind::Real,
            synthetic: true,
            justification: Some("Only possibility to make the AF 8 element die."@),
        },
        DiffModel {
            from: "3 6 2 3 3[12]"@,
            to: "3 6 6 5 3[5]"@,
            coeff: 0,
            d: 7,
            kind: Kind::Real,
            synthetic: true,
            justification: Some("Only possibility to make the AF 6 element die."@),
        },
        DiffModel {
            from: "2 3 5 7 3 3[6]"@,
            to: "2 4 1 1 2 4 3 3 3[5]"@,
            coeff: 2,
            d: 1,
            kind: Kind::Real,
            synthetic: true,
            justification: Some("We need a stable differential from AF 7 to AF 9, this is the only possibility."@),
        },
        DiffModel {
            from: "6 2 3 4 4 1 1 1[8]"@,
            to: "2 4 1 1 2 4 3 3 3[6]"@,
            coeff: 1,
            d: 2,
            kind: Kind::Real,
            synthetic: true,
            justification: Some("Classical homotopy groups need one less generator, this is the only generator left originating from the 9 sphere."@),
        },
        DiffModel {
            from: "3 6 2 3 3[13]"@,
            to: "2 2 2 3 5 7 3 3[2]"@,
            coeff: 2,
            d: 11,
            kind: Kind::Real,
            synthetic: true,
            justification: Some("We need a stable differential from AF 6 to AF 9. TODO: Im not sure which AF 9 should be hit."@),
        },
        DiffModel {
            from: "13 3[14]"@,
            to: "4 5 7 7[6]"@,
            coeff: 1,
            d: 8,
            kind: Kind::Real,
            synthetic: true,
            justification: Some("We need an AF 3 element to reduce the torsion of this target, else a lifted differential will not be valid. The AF 3 element on the 15 sphere cannot be it, as this would still give me an invalid map, this leaves only 13 3[14] as the source of this differential."@),
        },
        DiffModel {
            from: "4 4 1 1 1[19]"@,
            to: "2 3 5 7 7[5]"@,
            coeff: 0,
            d: 14,
            kind: Kind::Real,
            synthetic: true,
            justification: Some("We need an AF 6 element to die on the 20 sphere, the element 2 4 3 3 3[14] is not a valid target yet for the source of this differential, which is also the only possible source."@),
        },
        DiffModel {
            from: "2 4 5 3 3 3[10]"@,
            to: "6 2 3 4 4 1 1 1[7]"@,
            coeff: 1,
            d: 3,
            kind: Kind::Real,
            synthetic: true,
            justification: Some("We need an unstable differential from the 11 sphere. The only possible source is the AF 7 which can only target to another AF 9, NOTE that it is not completely clear WHICH AF 9 is targeted. TODO"@),
        },
        DiffModel {
            from: "9 3 3 3[12]"@,
            to: "1 2 4 1 1 2 4 1 1 1[11]"@,
            coeff: 5,
            d: 1,
            kind: Kind::Real,
            synthetic: true,
            justification: Some("We need an unstable differential from the 13 sphere. This is really just a guess"@),
        },
        DiffModel {
            from: "2 4 1 1 2 4 1 1 1[13]"@,
            to: "2 3 5 7 7[5]"@,
            coeff: 0,
            d: 8,
            kind: Kind::Real,
            synthetic: true,
            justification: Some("We need an unstable differential from the 14 sphere. This is really just a guess"@),
        },
        DiffModel {
            from: "7 7[16]"@,
            to: "7 7 7[8]"@,
            coeff: 1,
            d: 8,
            kind: Kind::Real,
            synthetic: true,
            justification: Some("We need two unstable differentials from the 17 sphere. This is really just a guess just like the other two above. But it also seems like the only possibility at the moment"@),
        },
        DiffModel {
            from: "6 2 3 3[16]"@,
            to: "2 4 3 3 3[14]"@,
            coeff: 2,
            d: 2,
            kind: Kind::Real,
            synthetic: true,
            justification: Some("We need two unstable differentials from the 17 sphere. This is really just a guess just like the other two above. But it also seems like the only possibility at the moment"@),
        },
        DiffModel {
            from: "2 4 1 1 2 4 3 3 3[8]"@,
            to: "3 6 2 3 4 4 1 1 1[5]"@,
            coeff: 0,
            d: 3,
            kind: Kind::Real,
            synthetic: true,
            justification: Some("We need to kill an element in AF 10, and this is the only possibility"@),
        },
        DiffModel {
            from: "2 3 4 4 1 1 1[14]"@,
            to: "2 2 2 3 5 7 3 3[2]"@,
            coeff: 1,
            d: 12,
            kind: Kind::Real,
            synthetic: true,
            justification: Some("We need one less AF 6 element, without getting an extra one, this is the only possibility. The tau torsion element in this cell cannot support this differential as it is killed later."@),
        },
        DiffModel {
            from: "[31]"@,
            to: "1 2 3 3[21]"@,
            coeff: 1,
            d: 10,
            kind: Kind::Real,
            synthetic: true,
            justification: Some("Stable Differential."@),
        },
        DiffModel {
            from: "1[30]"@,
            to: "11 3 3[13]"@,
            coeff: 1,
            d: 17,
            kind: Kind::Real,
            synthetic: true,
            justification: Some("Stable Differential."@),
        },
        DiffModel {
            from: "1 1[29]"@,
            to: "4 4 1 1 1[19]"@,
            coeff: 1,
            d: 10,
            kind: Kind::Real,
            synthetic: true,
            justification: Some("Stable Differential."@),
        },
    ]
}

/// The values of the recorded tau-multiplication table.
pub open spec fn spec_tau_table() -> Seq<MultModel> {
    seq![
        MultModel { from: "1 2 4 3 3 3[6]"@, to: "3 6 2 3 3[5]"@, kind: Kind::Real },
        MultModel { from: "3 4 4 1 1 1[8]"@, to: "12 1 1 1[7]"@, kind: Kind::Real },
        MultModel { from: "6 5 3[8]"@, to: "6 2 3 3[8]"@, kind: Kind::Real },
        MultModel { from: "1 1 2 4 3 3 3[8]"@, to: "2 3 5 7 3 3[2]"@, kind: Kind::Real },
        MultModel { from: "6 5 3[10]"@, to: "6 2 3 3[10]"@, kind: Kind::Real },
        MultModel { from: "6 5 3[9]"@, to: "13 3[7]"@, kind: Kind::Real },
        MultModel { from: "6 5 3[11]"@, to: "11 7[7]"@, kind: Kind::Real },
        MultModel { from: "6 5 3[12]"@, to: "6 2 3 3[12]"@, kind: Kind::Real },
        MultModel { from: "6 2 4 3 3 3[5]"@, to: "5 5 7 3 3[3]"@, kind: Kind::Real },
        MultModel { from: "2 2 4 3 3 3[9]"@, to: "2 4 5 3 3 3[6]"@, kind: Kind::Real },
        MultModel { from: "1 2 4 3 3 3[10]"@, to: "3 6 2 3 3[9]"@, kind: Kind::Real },
        MultModel { from: "3 4 4 1 1 1[12]"@, to: "12 1 1 1[11]"@, kind: Kind::Real },
        MultModel { from: "1 1 2 4 3 3 3[10]"@, to: "6 2 3 4 4 1 1 1[5]"@, kind: Kind::Real },
        MultModel { from: "1 2 4 3 3 3[11]"@, to: "3 5 7 3 3[6]"@, kind: Kind::Real },
        MultModel { from: "6 5 3[13]"@, to: "13 3[11]"@, kind: Kind::Real },
        MultModel { from: "6 5 3[14]"@, to: "6 2 3 3[14]"@, kind: Kind::Real },
        MultModel { from: "2 2 4 3 3 3[11]"@, to: "3 6 6 5 3[5]"@, kind: Kind::Real },
        MultModel { from: "1 2 4 3 3 3[13]"@, to: "2 3 5 7 7[5]"@, kind: Kind::Real },
        MultModel { from: "2 2 2 2 2 4 5 3 3 3[2]"@, to: "2 2 2 2 3 5 7 3 3[1]"@, kind: Kind::Real },
        MultModel { from: "1 2 4 1 1 2 4 3 3 3[6]"@, to: "3 6 2 3 4 4 1 1 1[5]"@, kind: Kind::Real },
        MultModel { from: "1 2 4 3 3 3[14]"@, to: "2 3 4 4 1 1 1[14]"@, kind: Kind::Real },
    ]
}

/// The values of an induced-name override list.
pub open spec fn induced_view(v: Seq<(String, Vec<(i32, String)>)>) -> Seq<
    (Seq<char>, Seq<(i32, Seq<char>)>),
> {
    v.map_values(
        |p: (String, Vec<(i32, String)>)|
            (p.0@, p.1@.map_values(|q: (i32, String)| (q.0, q.1@))),
    )
}

/// The values of the recorded induced-name table.
pub open spec fn spec_induced_table() -> Seq<(Seq<char>, Seq<(i32, Seq<char>)>)> {
    seq![
        ("2 4 3 3 3[5]"@, seq![(6, "7 3 3 3[4]"@),]),
        ("3 6 2 3 3[3]"@, seq![(5, "4 5 3 3 3[2]"@),]),
        ("3 6 2 3 3[4]"@, seq![(5, "5 7 3 3[3]"@),]),
        ("3 4 4 1 1 1[8]"@, seq![(9, "4 5 3 3 3[4]"@),]),
        ("4 4 1 1 1[11]"@, seq![(12, "8 3 3 3[5]"@),]),
        ("1 2 3 3[13]"@, seq![(14, "6 5 3[8]"@),]),
        ("3 6 2 3 3[6]"@, seq![(7, "5 7 3 3[5]"@),]),
        ("3 6 2 3 3[7]"@, seq![(9, "4 5 3 3 3[6]"@),]),
        ("2 4 3 3 3[9]"@, seq![(10, "8 3 3 3[7]"@),]),
        ("2 4 3 3 3[10]"@, seq![(11, "5 7 3 3[7]"@),]),
        ("5 5 7 3 3[3]"@, seq![(6, "7 6 2 3 3[5]"@),]),
        ("2 4 5 3 3 3[6]"@, seq![(7, "3 5 7 3 3[5]"@),]),
        ("6 2 3 4 4 1 1 1[5]"@, seq![(6, "2 3 5 7 3 3[4]"@),]),
        ("2 4 1 1 2 4 3 3 3[4]"@, seq![(5, "2 2 3 5 7 3 3[2]"@),]),
        ("3 6 2 3 4 4 1 1 1[3]"@, seq![(5, "2 2 2 2 4 5 3 3 3[2]"@),]),
        ("2 4 1 1 2 4 3 3 3[5]"@, seq![(6, "2 2 2 4 5 3 3 3[4]"@),]),
        ("8 4 1 1 2 4 1 1 1[7]"@, seq![(9, "2 2 2 2 4 5 3 3 3[4]"@),]),
        ("4 4 1 1 2 4 1 1 1[11]"@, seq![(12, "8 1 1 2 4 3 3 3[5]"@),]),
        ("1 2 3 4 4 1 1 1[13]"@, seq![(14, "13 1 2 4 1 1 1[7]"@),]),
        ("2 3 4 4 1 1 1[14]"@, seq![(15, "1 2 4 3 3 3[14]"@),]),
    ]
}


/// The hand-curated synthetic differentials, recorded from the published
/// tables.
pub fn get_diffs() -> (r: Vec<Differential>)
    ensures
        diffs_view(r@) == spec_diffs_table(),
        r@.len() == 63,
{
    let r = vec![
        Differential {
            from: String::from_str("[15]"),
            to: String::from_str("5 3[6]"),
            coeff: 1,
            d: 9,
            kind: Kind::Real,
            synthetic: true,
            justification: Some(String::from_str("Stable Diff")),
        },
        Differential {
            from: String::from_str("1[14]"),
            to: String::from_str("1 2 3 3[5]"),
            coeff: 2,
            d: 9,
            kind: Kind::Real,
            synthetic: true,
            justification: Some(String::from_str("Stable Diff")),
        },
        Differential {
            from: String::from_str("1 1[13]"),
            to: String::from_str("4 4 1 1 1[3]"),
            coeff: 2,
            d: 10,
            kind: Kind::Real,
            synthetic: true,
            justification: Some(String::from_str("Stable Diff")),
        },
        Differential {
            from: String::from_str("3 3 3[8]"),
            to: String::from_str("2 4 3 3 3[1]"),
            coeff: 1,
            d: 7,
            kind: Kind::Real,
            synthetic: true,
            justification: Some(String::from_str("Stable Diff")),
        },
        Differential {
            from: String::from_str("5 3 3 3[4]"),
            to: String::from_str("1 2 4 3 3 3[1]"),
            coeff: 1,
            d: 3,
            kind: Kind::Real,
            synthetic: true,
            justification: Some(String::from_str("Stable Diff")),
        },
        Differential {
            from: String::from_str("7 3 3[5]"),
            to: String::from_str("2 4 3 3 3[2]"),
            coeff: 1,
            d: 3,
            kind: Kind::Real,
            synthetic: true,
            justification: Some(String::from_str("Stable Diff")),
        },
        Differential {
            from: String::from_str("1 2 4 1 1 1[13]"),
            to: String::from_str("1 2 3 4 4 1 1 1[5]"),
            coeff: 1,
            d: 8,
            kind: Kind::Real,
            synthetic: true,
            justification: Some(String::from_str("Stable Diff")),
        },
        Differential {
            from: String::from_str("1 1 2 4 1 1 1[12]"),
            to: String::from_str("4 4 1 1 2 4 1 1 1[3]"),
            coeff: 1,
            d: 9,
            kind: Kind::Real,
            synthetic: true,
            justification: Some(String::from_str("Stable Diff")),
        },
        Differential {
            from: String::from_str("7 3 3 3[4]"),
            to: String::from_str("1 2 4 3 3 3[3]"),
            coeff: 1,
            d: 1,
            kind: Kind::Real,
            synthetic: true,
            justification: Some(String::from_str("If this diff does not exist, we would have an an element of AF 7 in stem 21 of the 3 sphere. But we know there is no such element.")),
        },
        Differential {
            from: String::from_str("6 5 3[8]"),
            to: String::from_str("5 1 2 3 3[7]"),
            coeff: 1,
            d: 1,
            kind: Kind::Real,
            synthetic: true,
            justification: Some(String::from_str("If this diff does not exists, we would have an element with AF 3 on the algebraic 9 sphere.")),
        },
        Differential {
            from: String::from_str("6 2 3 3[8]"),
            to: String::from_str("2 4 3 3 3[6]"),
            coeff: 1,
            d: 2,
            kind: Kind::Real,
            synthetic: true,
            justification: Some(String::from_str("Geometric 9 - 13 Sphere needs a generator killed. This is the only viable differential.")),
        },
        Differential {
            from: String::from_str("2 4 3 3 3[8]"),
            to: String::from_str("3 6 2 3 3[5]"),
            coeff: 0,
            d: 3,
            kind: Kind::Real,
            synthetic: true,
            justification: Some(String::from_str("We need the differential here such that the convergence of the synthetic SS is coherent with the algebraic sphere. No other differential could satisfy this.")),
        },
        Differential {
            from: String::from_str("4 1 1 1[16]"),
            to: String::from_str("3 4 4 1 1 1[8]"),
            coeff: 0,
            d: 8,
            kind: Kind::Real,
            synthetic: true,
            justification: Some(String::from_str("We need the differential here such that the convergence of the synthetic SS is coherent with the algebraic sphere. No other differential could satisfy this.")),
        },
        Differential {
            from: String::from_str("4 1 1 1[16]"),
            to: String::from_str("12 1 1 1[7]"),
            coeff: 0,
            d: 9,
            kind: Kind::Real,
            synthetic: true,
            justification: Some(String::from_str("We need the differential here such that the convergence of the synthetic SS is coherent with the algebraic sphere. No other differential could satisfy this. This one 'represents the same' as the other originating from this differential.")),
        },
        Differential {
            from: String::from_str("1 1 1[20]"),
            to: String::from_str("4 4 1 1 1[11]"),
            coeff: 0,
            d: 9,
            kind: Kind::Real,
            synthetic: true,
            justification: Some(String::from_str("We need the differential here such that the convergence of the synthetic SS is coherent with the algebraic sphere. No other differential could satisfy this.")),
        },
        Differential {
            from: String::from_str("1 1[21]"),
            to: String::from_str("1 2 3 3[13]"),
            coeff: 0,
            d: 8,
            kind: Kind::Real,
            synthetic: true,
            justification: Some(String::from_str("We need the differential here such that the convergence of the synthetic SS is coherent with the algebraic sphere. No other differential could satisfy this.")),
        },
        Differential {
            from: String::from_str("7 7[10]"),
            to: String::from_str("13 3[7]"),
            coeff: 0,
            d: 3,
            kind: Kind::Real,
            synthetic: true,
            justification: Some(String::from_str("We need the differential here such that the convergence of the synthetic SS is coherent with the algebraic sphere. No other differential could satisfy this.")),
        },
        Differential {
            from: String::from_str("12 1 1 1[9]"),
            to: String::from_str("2 3 4 4 1 1 1[7]"),
            coeff: 2,
            d: 2,
            kind: Kind::Real,
            synthetic: true,
            justification: Some(String::from_str("One geometric homotopy group needs to die on this sphere. Also on the 11 sphere there will be a diff from a 2-torsion element to this, meaning this differential must exist to make the Z[τ] structure work out")),
        },
        Differential {
            from: String::from_str("6 2 3 3[10]"),
            to: String::from_str("3 6 2 3 3[6]"),
            coeff: 1,
            d: 4,
            kind: Kind::Real,
            synthetic: true,
            justification: Some(String::from_str("We need the differential here such that the convergence of the synthetic SS is coherent with the algebraic sphere. No other differential could satisfy this. Also this differential should exist together with the originating from this cell.")),
        },
        Differential {
            from: String::from_str("6 5 3[10]"),
            to: String::from_str("3 6 2 3 3[6]"),
            coeff: 0,
            d: 4,
            kind: Kind::Real,
            synthetic: true,
            justification: Some(String::from_str("We need the differential here such that the convergence of the synthetic SS is coherent with the algebraic sphere. No other differential could satisfy this. Also this differential should exist together with the originating from this cell.")),
        },
        Differential {
            from: String::from_str("2 3 5 7 3 3[2]"),
            to: String::from_str("2 4 1 1 2 4 3 3 3[1]"),
            coeff: 2,
            d: 1,
            kind: Kind::Real,
            synthetic: true,
            justification: Some(String::from_str("We need an Adams differential on the 3 sphere. The only possibilities are from this element or the element in AF 5. But the element in AF 5 will be killed by an AEHP, meaning it could not support a differential as the target survives to E_infinity.")),
        },
        Differential {
            from: String::from_str("3 5 7 3 3[4]"),
            to: String::from_str("2 2 4 5 3 3 3[2]"),
            coeff: 1,
            d: 2,
            kind: Kind::Real,
            synthetic: true,
            justification: Some(String::from_str("This differential both is needed for the geometric homotopy groups and is the only possible differential which can repair the possible torsion problem.")),
        },
        Differential {
            from: String::from_str("3 6 2 3 3[8]"),
            to: String::from_str("2 4 5 3 3 3[4]"),
            coeff: 1,
            d: 4,
            kind: Kind::Real,
            synthetic: true,
            justification: Some(String::from_str("We need a unstable differential which does not survive stably.")),
        },
        Differential {
            from: String::from_str("1 1 2 4 3 3 3[8]"),
            to: String::from_str("2 4 1 1 2 4 3 3 3[1]"),
            coeff: 1,
            d: 7,
            kind: Kind::Real,
            synthetic: true,
            justification: Some(String::from_str("Together with the other differential with this target it represents the stable differential in these stems.")),
        },
        Differential {
            from: String::from_str("6 2 3 3[11]"),
            to: String::from_str("3 6 2 3 3[7]"),
            coeff: 0,
            d: 4,
            kind: Kind::Real,
            synthetic: true,
            justification: Some(String::from_str("Algebraicly we need to this element to die from this sphere, this is the only possibility.")),
        },
        Differential {
            from: String::from_str("3 3 3[16]"),
            to: String::from_str("2 4 3 3 3[9]"),
            coeff: 0,
            d: 7,
            kind: Kind::Real,
            synthetic: true,
            justification: Some(String::from_str("Algebraicly we need to this element to die from this sphere, this is the only possibility.")),
        },
        Differential {
            from: String::from_str("2 2 2 4 5 3 3 3[2]"),
            to: String::from_str("1 2 4 1 1 2 4 3 3 3[1]"),
            coeff: 1,
            d: 1,
            kind: Kind::Real,
            synthetic: true,
            justification: Some(String::from_str("We need this differential to correct the stable adams differential in this range")),
        },
        Differential {
            from: String::from_str("2 2 4 5 3 3 3[4]"),
            to: String::from_str("2 4 1 1 2 4 3 3 3[2]"),
            coeff: 1,
            d: 2,
            kind: Kind::Real,
            synthetic: true,
            justification: Some(String::from_str("Only possible place to support this stable adams differential")),
        },
        Differential {
            from: String::from_str("3 5 7 3 3[5]"),
            to: String::from_str("6 2 3 4 4 1 1 1[3]"),
            coeff: 2,
            d: 2,
            kind: Kind::Real,
            synthetic: true,
            justification: Some(String::from_str("We need one more ")),
        },
        Differential {
            from: String::from_str("2 4 5 3 3 3[6]"),
            to: String::from_str("6 2 3 4 4 1 1 1[3]"),
            coeff: 1,
            d: 3,
            kind: Kind::Real,
            synthetic: true,
            justification: Some(String::from_str("We need the AF 9 element to be the correct torsion. And stem 26 needs this element in AF 6.")),
        },
        Differential {
            from: String::from_str("7 7[12]"),
            to: String::from_str("11 7[7]"),
            coeff: 0,
            d: 5,
            kind: Kind::Real,
            synthetic: true,
            justification: Some(String::from_str("Algebraicly we need an element in AF 3 to die. We cannot hit 7 7[11] as we already hit something else on the E1 page.")),
        },
        Differential {
            from: String::from_str("6 2 3 3[12]"),
            to: String::from_str("2 4 3 3 3[10]"),
            coeff: 2,
            d: 2,
            kind: Kind::Real,
            synthetic: true,
            justification: Some(String::from_str("Algebraicly we need an element in AF 5 to die. It also must come from this AF 4 + AF 3 element. The other AF 5 element 3 5 7 7[3] will get killed later and we must have zero surviving elements in AF 5.")),
        },
        Differential {
            from: String::from_str("6 5 3[12]"),
            to: String::from_str("2 4 3 3 3[10]"),
            coeff: 1,
            d: 2,
            kind: Kind::Real,
            synthetic: true,
            justification: Some(String::from_str("Algebraicly we need an element in AF 5 to die. It also must come from this AF 4 + AF 3 element. The other AF 5 element 3 5 7 7[3] will get killed later and we must have zero surviving elements in AF 5.")),
        },
        Differential {
            from: String::from_str("2 3 5 7 3 3[4]"),
            to: String::from_str("2 4 1 1 2 4 3 3 3[3]"),
            coeff: 2,
            d: 1,
            kind: Kind::Real,
            synthetic: true,
            justification: Some(String::from_str("The target of this differential is the only one which could represent an unstable differential, as it should also be killed on the 6 sphere. Only the element in degree 7 could support this differential.")),
        },
        Differential {
            from: String::from_str("7 6 2 3 3[6]"),
            to: String::from_str("5 5 7 3 3[3]"),
            coeff: 0,
            d: 3,
            kind: Kind::Real,
            synthetic: true,
            justification: Some(String::from_str("Algebraicly we need an element in AF 6 to die. We only need to kill this from the 7 sphere so the other AF 5 element which could support this diff is ruled out.")),
        },
        Differential {
            from: String::from_str("3 6 2 3 3[10]"),
            to: String::from_str("2 4 5 3 3 3[6]"),
            coeff: 0,
            d: 4,
            kind: Kind::Real,
            synthetic: true,
            justification: Some(String::from_str("We need an AF 6 element to die. This is the only element which can support one on this sphere. TODO: Why not target the AF6 element on the seven sphere?")),
        },
        Differential {
            from: String::from_str("2 4 3 3 3[12]"),
            to: String::from_str("3 6 2 3 3[9]"),
            coeff: 0,
            d: 3,
            kind: Kind::Real,
            synthetic: true,
            justification: Some(String::from_str("We need an AF 6 element to die. This is the only element which can support one on this sphere. TODO: Why not target the AF6 element in y=3?")),
        },
        Differential {
            from: String::from_str("2 4 1 1 1[18]"),
            to: String::from_str("12 1 1 1[11]"),
            coeff: 0,
            d: 7,
            kind: Kind::Real,
            synthetic: true,
            justification: Some(String::from_str("We need an AF 5 element to die. The tau multiplication also implies that this element should be the one to kill it. Also the other AF 4 element here cannot support the differential as it is killed later.")),
        },
        Differential {
            from: String::from_str("8 4 1 1 2 4 1 1 1[5]"),
            to: String::from_str("2 3 4 4 1 1 2 4 1 1 1[3]"),
            coeff: 1,
            d: 2,
            kind: Kind::Real,
            synthetic: true,
            justification: Some(String::from_str("There is an induced differential from AEHP, which is now from torsion to torsion free. This implies that we need to make its target torsion as well! There is only one element which can do this, and this also gives us a unstable differential!")),
        },
        Differential {
            from: String::from_str("2 4 5 3 3 3[8]"),
            to: String::from_str("2 4 1 1 2 4 3 3 3[4]"),
            coeff: 0,
            d: 4,
            kind: Kind::Real,
            synthetic: true,
            justification: Some(String::from_str("Need to fix the algebraic convergence and delete an AF 8 element. There is only one AF 7 element which can do this.")),
        },
        Differential {
            from: String::from_str("3 6 2 3 3[11]"),
            to: String::from_str("1 2 3 4 4 1 1 1[10]"),
            coeff: 2,
            d: 1,
            kind: Kind::Real,
            synthetic: true,
            justification: Some(String::from_str("On the 13 sphere we need to kill the AF 7 element on y=5. To do this we need an element in degree 6 on the 13 sphere. The only element which can do this is 2 3 4 4 1 1 1[12]. This element will be made by having an unstable differential from 3 6 2 3 3[11] to 1 2 3 4 4 1 1 1[10].")),
        },
        Differential {
            from: String::from_str("2 3 4 4 1 1 1[12]"),
            to: String::from_str("6 2 3 4 4 1 1 1[5]"),
            coeff: 0,
            d: 7,
            kind: Kind::Real,
            synthetic: true,
            justification: Some(String::from_str("On the 13 sphere we need to kill the AF 7 element on y=5, the other AF 7 element can not be reached. To do this we need an element in degree 6 on the 13 sphere. The only element which can do this is 2 3 4 4 1 1 1[12]. This element will be made by having an unstable differential from 3 6 2 3 3[11] to 1 2 3 4 4 1 1 1[10].")),
        },
        Differential {
            from: String::from_str("2 4 3 3 3[13]"),
            to: String::from_str("3 5 7 3 3[6]"),
            coeff: 0,
            d: 7,
            kind: Kind::Real,
            synthetic: true,
            justification: Some(String::from_str("We need an algebraic element in AF 6 to die. These are the only possible target and source")),
        },
        Differential {
            from: String::from_str("12 1 1 1[13]"),
            to: String::from_str("2 3 4 4 1 1 1[11]"),
            coeff: 2,
            d: 2,
            kind: Kind::Real,
            synthetic: true,
            justification: Some(String::from_str("We need a differential here to not have a torsion to torsion free map on the next sphere. This is the only choice")),
        },
        Differential {
            from: String::from_str("6 2 3 3[14]"),
            to: String::from_str("6 6 5 3[7]"),
            coeff: 1,
            d: 7,
            kind: Kind::Real,
            synthetic: true,
            justification: Some(String::from_str("We need a differential here to not have a torsion to torsion free map on the next sphere. This is the only choice")),
        },
        Differential {
            from: String::from_str("7 7[14]"),
            to: String::from_str("13 3[11]"),
            coeff: 0,
            d: 3,
            kind: Kind::Real,
            synthetic: true,
            justification: Some(String::from_str("We need an AF3 element to die on the 16 sphere, this is the only choice.")),
        },
        Differential {
            from: String::from_str("2 2 2 4 5 3 3 3[4]"),
            to: String::from_str("1 2 4 1 1 2 4 3 3 3[3]"),
            coeff: 1,
            d: 1,
            kind: Kind::Real,
            synthetic: true,
            justification: Some(String::from_str("Only possibility to make the AF 8 element die.")),
        },
        Differential {
            from: String::from_str("3 6 2 3 3[12]"),
            to: String::from_str("3 6 6 5 3[5]"),
            coeff: 0,
            d: 7,
            kind: Kind::Real,
            synthetic: true,
            justification: Some(String::from_str("Only possibility to make the AF 6 element die.")),
        },
        Differential {
            from: String::from_str("2 3 5 7 3 3[6]"),
            to: String::from_str("2 4 1 1 2 4 3 3 3[5]"),
            coeff: 2,
            d: 1,
            kind: Kind::Real,
            synthetic: true,
            justification: Some(String::from_str("We need a stable differential from AF 7 to AF 9, this is the only possibility.")),
        },
        Differential {
            from: String::from_str("6 2 3 4 4 1 1 1[8]"),
            to: String::from_str("2 4 1 1 2 4 3 3 3[6]"),
            coeff: 1,
            d: 2,
            kind: Kind::Real,
            synthetic: true,
            justification: Some(String::from_str("Classical homotopy groups need one less generator, this is the only generator left originating from the 9 sphere.")),
        },
        Differential {
            from: String::from_str("3 6 2 3 3[13]"),
            to: String::from_str("2 2 2 3 5 7 3 3[2]"),
            coeff: 2,
            d: 11,
            kind: Kind::Real,
            synthetic: true,
            justification: Some(String::from_str("We need a stable differential from AF 6 to AF 9. TODO: Im not sure which AF 9 should be hit.")),
        },
        Differential {
            from: String::from_str("13 3[14]"),
            to: String::from_str("4 5 7 7[6]"),
            coeff: 1,
            d: 8,
            kind: Kind::Real,
            synthetic: true,
            justification: Some(String::from_str("We need an AF 3 element to reduce the torsion of this target, else a lifted differential will not be valid. The AF 3 element on the 15 sphere cannot be it, as this would still give me an invalid map, this leaves only 13 3[14] as the source of this differential.")),
        },
        Differential {
            from: String::from_str("4 4 1 1 1[19]"),
            to: String::from_str("2 3 5 7 7[5]"),
            coeff: 0,
            d: 14,
            kind: Kind::Real,
            synthetic: true,
            justification: Some(String::from_str("We need an AF 6 element to die on the 20 sphere, the element 2 4 3 3 3[14] is not a valid target yet for the source of this differential, which is also the only possible source.")),
        },
        Differential {
            from: String::from_str("2 4 5 3 3 3[10]"),
            to: String::from_str("6 2 3 4 4 1 1 1[7]"),
            coeff: 1,
            d: 3,
            kind: Kind::Real,
            synthetic: true,
            justification: Some(String::from_str("We need an unstable differential from the 11 sphere. The only possible source is the AF 7 which can only target to another AF 9, NOTE that it is not completely clear WHICH AF 9 is targeted. TODO")),
        },
        Differential {
            from: String::from_str("9 3 3 3[12]"),
            to: String::from_str("1 2 4 1 1 2 4 1 1 1[11]"),
            coeff: 5,
            d: 1,
            kind: Kind::Real,
            synthetic: true,
            justification: Some(String::from_str("We need an unstable differential from the 13 sphere. This is really just a guess")),
        },
        Differential {
            from: String::from_str("2 4 1 1 2 4 1 1 1[13]"),
            to: String::from_str("2 3 5 7 7[5]"),
            coeff: 0,
            d: 8,
            kind: Kind::Real,
            synthetic: true,
            justification: Some(String::from_str("We need an unstable differential from the 14 sphere. This is really just a guess")),
        },
        Differential {
            from: String::from_str("7 7[16]"),
            to: String::from_str("7 7 7[8]"),
            coeff: 1,
            d: 8,
            kind: Kind::Real,
            synthetic: true,
            justification: Some(String::from_str("We need two unstable differentials from the 17 sphere. This is really just a guess just like the other two above. But it also seems like the only possibility at the moment")),
        },
        Differential {
            from: String::from_str("6 2 3 3[16]"),
            to: String::from_str("2 4 3 3 3[14]"),
            coeff: 2,
            d: 2,
            kind: Kind::Real,
            synthetic: true,
            justification: Some(String::from_str("We need two unstable differentials from the 17 sphere. This is really just a guess just like the other two above. But it also seems like the only possibility at the moment")),
        },
        Differential {
            from: String::from_str("2 4 1 1 2 4 3 3 3[8]"),
            to: String::from_str("3 6 2 3 4 4 1 1 1[5]"),
            coeff: 0,
            d: 3,
            kind: Kind::Real,
            synthetic: true,
            justification: Some(String::from_str("We need to kill an element in AF 10, and this is the only possibility")),
        },
        Differential {
            from: String::from_str("2 3 4 4 1 1 1[14]"),
            to: String::from_str("2 2 2 3 5 7 3 3[2]"),
            coeff: 1,
            d: 12,
            kind: Kind::Real,
            synthetic: true,
            justification: Some(String::from_str("We need one less AF 6 element, without getting an extra one, this is the only possibility. The tau torsion element in this cell cannot support this differential as it is killed later.")),
        },
        Differential {
            from: String::from_str("[31]"),
            to: String::from_str("1 2 3 3[21]"),
            coeff: 1,
            d: 10,
            kind: Kind::Real,
            synthetic: true,
            justification: Some(String::from_str("Stable Differential.")),
        },
        Differential {
            from: String::from_str("1[30]"),
            to: String::from_str("11 3 3[13]"),
            coeff: 1,
            d: 17,
            kind: Kind::Real,
            synthetic: true,
            justification: Some(String::from_str("Stable Differential.")),
        },
        Differential {
            from: String::from_str("1 1[29]"),
            to: String::from_str("4 4 1 1 1[19]"),
            coeff: 1,
            d: 10,
            kind: Kind::Real,
            synthetic: true,
            justification: Some(String::from_str("Stable Differential.")),
        },
    ];
    proof {
        assert(diffs_view(r@) =~~= spec_diffs_table());
    }
    r
}

/// Induced-name overrides for generators whose structural image is
/// recorded by hand: pairs of a generator name and the (sphere, name)
/// entries produced outside the core.
pub fn get_induced_names() -> (r: Vec<(String, Vec<(i32, String)>)>)
    ensures
        induced_view(r@) == spec_induced_table(),
        r@.len() == 20,
{
    let r = vec![
        (String::from_str("2 4 3 3 3[5]"), vec![(6, String::from_str("7 3 3 3[4]")),]),
        (String::from_str("3 6 2 3 3[3]"), vec![(5, String::from_str("4 5 3 3 3[2]")),]),
        (String::from_str("3 6 2 3 3[4]"), vec![(5, String::from_str("5 7 3 3[3]")),]),
        (String::from_str("3 4 4 1 1 1[8]"), vec![(9, String::from_str("4 5 3 3 3[4]")),]),
        (String::from_str("4 4 1 1 1[11]"), vec![(12, String::from_str("8 3 3 3[5]")),]),
        (String::from_str("1 2 3 3[13]"), vec![(14, String::from_str("6 5 3[8]")),]),
        (String::from_str("3 6 2 3 3[6]"), vec![(7, String::from_str("5 7 3 3[5]")),]),
        (String::from_str("3 6 2 3 3[7]"), vec![(9, String::from_str("4 5 3 3 3[6]")),]),
        (String::from_str("2 4 3 3 3[9]"), vec![(10, String::from_str("8 3 3 3[7]")),]),
        (String::from_str("2 4 3 3 3[10]"), vec![(11, String::from_str("5 7 3 3[7]")),]),
        (String::from_str("5 5 7 3 3[3]"), vec![(6, String::from_str("7 6 2 3 3[5]")),]),
        (String::from_str("2 4 5 3 3 3[6]"), vec![(7, String::from_str("3 5 7 3 3[5]")),]),
        (String::from_str("6 2 3 4 4 1 1 1[5]"), vec![(6, String::from_str("2 3 5 7 3 3[4]")),]),
        (String::from_str("2 4 1 1 2 4 3 3 3[4]"), vec![(5, String::from_str("2 2 3 5 7 3 3[2]")),]),
        (String::from_str("3 6 2 3 4 4 1 1 1[3]"), vec![(5, String::from_str("2 2 2 2 4 5 3 3 3[2]")),]),
        (String::from_str("2 4 1 1 2 4 3 3 3[5]"), vec![(6, String::from_str("2 2 2 4 5 3 3 3[4]")),]),
        (String::from_str("8 4 1 1 2 4 1 1 1[7]"), vec![(9, String::from_str("2 2 2 2 4 5 3 3 3[4]")),]),
        (String::from_str("4 4 1 1 2 4 1 1 1[11]"), vec![(12, String::from_str("8 1 1 2 4 3 3 3[5]")),]),
        (String::from_str("1 2 3 4 4 1 1 1[13]"), vec![(14, String::from_str("13 1 2 4 1 1 1[7]")),]),
        (String::from_str("2 3 4 4 1 1 1[14]"), vec![(15, String::from_str("1 2 4 3 3 3[14]")),]),
    ];
    proof {
        assert(induced_view(r@) =~~= spec_induced_table());
    }
    r
}

/// The hand-curated tau multiplications.
pub fn get_tau_mults() -> (r: Vec<Multiplication>)
    ensures
        mults_view(r@) == spec_tau_table(),
        r@.len() == 21,
{
    let r = vec![
        Multiplication {
            from: String::from_str("1 2 4 3 3 3[6]"),
            to: String::from_str("3 6 2 3 3[5]"),
            kind: Kind::Real,
        },
        Multiplication {
            from: String::from_str("3 4 4 1 1 1[8]"),
            to: String::from_str("12 1 1 1[7]"),
            kind: Kind::Real,
        },
        Multiplication {
            from: String::from_str("6 5 3[8]"),
            to: String::from_str("6 2 3 3[8]"),
            kind: Kind::Real,
        },
        Multiplication {
            from: String::from_str("1 1 2 4 3 3 3[8]"),
            to: String::from_str("2 3 5 7 3 3[2]"),
            kind: Kind::Real,
        },
        Multiplication {
            from: String::from_str("6 5 3[10]"),
            to: String::from_str("6 2 3 3[10]"),
            kind: Kind::Real,
        },
        Multiplication {
            from: String::from_str("6 5 3[9]"),
            to: String::from_str("13 3[7]"),
            kind: Kind::Real,
        },
        Multiplication {
            from: String::from_str("6 5 3[11]"),
            to: String::from_str("11 7[7]"),
            kind: Kind::Real,
        },
        Multiplication {
            from: String::from_str("6 5 3[12]"),
            to: String::from_str("6 2 3 3[12]"),
            kind: Kind::Real,
        },
        Multiplication {
            from: String::from_str("6 2 4 3 3 3[5]"),
            to: String::from_str("5 5 7 3 3[3]"),
            kind: Kind::Real,
        },
        Multiplication {
            from: String::from_str("2 2 4 3 3 3[9]"),
            to: String::from_str("2 4 5 3 3 3[6]"),
            kind: Kind::Real,
        },
        Multiplication {
            from: String::from_str("1 2 4 3 3 3[10]"),
            to: String::from_str("3 6 2 3 3[9]"),
            kind: Kind::Real,
        },
        Multiplication {
            from: String::from_str("3 4 4 1 1 1[12]"),
            to: String::from_str("12 1 1 1[11]"),
            kind: Kind::Real,
        },
        Multiplication {
            from: String::from_str("1 1 2 4 3 3 3[10]"),
            to: String::from_str("6 2 3 4 4 1 1 1[5]"),
            kind: Kind::Real,
        },
        Multiplication {
            from: String::from_str("1 2 4 3 3 3[11]"),
            to: String::from_str("3 5 7 3 3[6]"),
            kind: Kind::Real,
        },
        Multiplication {
            from: String::from_str("6 5 3[13]"),
            to: String::from_str("13 3[11]"),
            kind: Kind::Real,
        },
        Multiplication {
            from: String::from_str("6 5 3[14]"),
            to: String::from_str("6 2 3 3[14]"),
            kind: Kind::Real,
        },
        Multiplication {
            from: String::from_str("2 2 4 3 3 3[11]"),
            to: String::from_str("3 6 6 5 3[5]"),
            kind: Kind::Real,
        },
        Multiplication {
            from: String::from_str("1 2 4 3 3 3[13]"),
            to: String::from_str("2 3 5 7 7[5]"),
            kind: Kind::Real,
        },
        Multiplication {
            from: String::from_str("2 2 2 2 2 4 5 3 3 3[2]"),
            to: String::from_str("2 2 2 2 3 5 7 3 3[1]"),
            kind: Kind::Real,
        },
        Multiplication {
            from: String::from_str("1 2 4 1 1 2 4 3 3 3[6]"),
            to: String::from_str("3 6 2 3 4 4 1 1 1[5]"),
            kind: Kind::Real,
        },
        Multiplication {
            from: String::from_str("1 2 4 3 3 3[14]"),
            to: String::from_str("2 3 4 4 1 1 1[14]"),
            kind: Kind::Real,
        },
    ];
    proof {
        assert(mults_view(r@) =~~= spec_tau_table());
    }
    r
}

} // verus!
