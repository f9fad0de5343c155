use vstd::prelude::*;

use crate::processor::{get_filtered_data, FinalRow, MAX_VERIFY_STEM};
use crate::reference::{sort_tors, RefEntry};
use crate::types::{Category, Generator, SyntheticEHP, Torsion};

verus! {

/// One discrepancy that a consistency check found.  Checks accumulate
/// every discrepancy rather than stopping at the first, so that the whole
/// mismatch set can be acted on.
#[derive(Clone, Debug, PartialEq, Eq)]
pub enum CheckIssue {
    DuplicateName { name: String },
    UnknownFrom { name: String },
    UnknownTo { name: String },
    WrongPage { from: String, to: String },
    WrongStemStep { from: String, to: String },
    StableCount { stem: i32, expected: i32, got: i128 },
    AlgebraicStableCount { stem: i32, expected: i32, got: i128 },
    ReferenceMismatch { bot_trunc: i32, top_trunc: i32, stem: i32, af: i32 },
    MissingReferenceTable { bot_trunc: i32, top_trunc: i32 },
    ClassicalCount { sphere: i32, stem: i32, expected: u32, got: i128 },
    CategoryTotal { sphere: i32, algebraic: i128, synthetic: i128 },
    CategoryCount { sphere: i32, stem: i32, af: i64 },
    InducedNameMissing { sphere: i32, name: String },
    RowElementMissing { sphere: i32, name: String },
    RowElementMismatch { sphere: i32, name: String },
    ConvergedElementMissing { sphere: i32, name: String },
    FromTorsionIncompatible { from: String, to: String },
    ToTorsionIncompatible { from: String, to: String },
    CoeffMismatch { from: String, to: String },
    MissingLiftedDifferential { from: String, to: String },
}

/// Index of the first generator that carries `name`, or -1.
pub open spec fn gen_index(gens: Seq<Generator>, name: Seq<char>) -> int
    decreases gens.len(),
{
    if gens.len() == 0 {
        -1
    } else if gens[0].name@ == name {
        0
    } else {
        let r = gen_index(gens.drop_first(), name);
        if r < 0 {
            -1
        } else {
            r + 1
        }
    }
}

/// What the generator index means position by position.
pub proof fn lemma_gen_index(gens: Seq<Generator>, name: Seq<char>)
    ensures
        gen_index(gens, name) == -1 ==> forall|k: int|
            0 <= k < gens.len() ==> (#[trigger] gens[k]).name@ != name,
        gen_index(gens, name) >= 0 ==> {
            let r = gen_index(gens, name);
            &&& r < gens.len()
            &&& gens[r].name@ == name
            &&& forall|k: int| 0 <= k < r ==> (#[trigger] gens[k]).name@ != name
        },
    decreases gens.len(),
{
    if gens.len() > 0 && gens[0].name@ != name {
        let rest = gens.drop_first();
        lemma_gen_index(rest, name);
        let r = gen_index(gens, name);
        if r == -1 {
            assert forall|k: int| 0 <= k < gens.len() implies (#[trigger] gens[k]).name@
                != name by {
                if k > 0 {
                    assert(rest[k - 1] == gens[k]);
                }
            }
        } else {
            assert(gens[r] == rest[r - 1]);
            assert forall|k: int| 0 <= k < r implies (#[trigger] gens[k]).name@ != name by {
                if k > 0 {
                    assert(rest[k - 1] == gens[k]);
                }
            }
        }
    }
}

/// Whether one differential is structurally sound: both endpoints exist,
/// its page is the gap of their secondary gradings, and it steps one stem
/// down.
pub open spec fn diff_sound(data: SyntheticEHP, k: int) -> bool {
    let d = data.differentials@[k];
    let fi = gen_index(data.generators@, d.from@);
    let ti = gen_index(data.generators@, d.to@);
    &&& fi >= 0
    &&& ti >= 0
    &&& data.generators@[fi].y - data.generators@[ti].y == d.d
    &&& data.generators@[fi].x - data.generators@[ti].x == 1
}

/// Whether one tau multiplication names existing generators.
pub open spec fn mult_sound(data: SyntheticEHP, k: int) -> bool {
    let m = data.multiplications@[k];
    &&& gen_index(data.generators@, m.from@) >= 0
    &&& gen_index(data.generators@, m.to@) >= 0
}

/// Structural integrity of the whole store: unique names, and every
/// relation grounded in existing generators with consistent grading.
pub open spec fn spec_integrity(data: SyntheticEHP) -> bool {
    &&& data.names_unique()
    &&& forall|k: int| 0 <= k < data.differentials@.len() ==> diff_sound(data, k)
    &&& forall|k: int| 0 <= k < data.multiplications@.len() ==> mult_sound(data, k)
}

/// Find the first generator with a given name by a plain scan.
fn scan_gen(data: &SyntheticEHP, name: &String) -> (r: Option<usize>)
    ensures
        match r {
            Some(i) => i as int == gen_index(data.generators@, name@),
            None => gen_index(data.generators@, name@) == -1,
        },
{
    proof {
        lemma_gen_index(data.generators@, name@);
    }
    let n = data.generators.len();
    let mut i: usize = 0;
    while i < n
        invariant
            n == data.generators@.len(),
            0 <= i <= n,
            forall|k: int| 0 <= k < i ==> (#[trigger] data.generators@[k]).name@ != name@,
        decreases n - i,
    {
        if data.generators[i].name == *name {
            proof {
                lemma_gen_index(data.generators@, name@);
            }
            return Some(i);
        }
        i = i + 1;
    }
    proof {
        lemma_gen_index(data.generators@, name@);
    }
    None
}

/// Check that the data is well-defined: no duplicate generator names, and
/// every differential and multiplication references existing generators
/// with the page and stem step their gradings dictate.
pub fn verify_integrity(data: &SyntheticEHP) -> (r: (bool, Vec<CheckIssue>))
    ensures
        r.0 == spec_integrity(*data),
        r.0 <==> r.1@.len() == 0,
{
    let mut issues: Vec<CheckIssue> = Vec::new();

    // duplicate names
    let n = data.generators.len();
    let mut i: usize = 0;
    while i < n
        invariant
            n == data.generators@.len(),
            0 <= i <= n,
            issues@.len() == 0 ==> forall|a: int, b: int|
                0 <= a < b < data.generators@.len() && b < i
                    ==> #[trigger] data.generators@[a].name@ != #[trigger] data.generators@[b].name@,
            issues@.len() > 0 ==> !spec_integrity(*data),
        decreases n - i,
    {
        let mut j: usize = 0;
        let mut dup = false;
        while j < i
            invariant_except_break
                n == data.generators@.len(),
                0 <= i < n,
                0 <= j <= i,
                !dup,
                forall|a: int|
                    0 <= a < j ==> #[trigger] data.generators@[a].name@ != data.generators@[i as int].name@,
            ensures
                dup ==> exists|a: int|
                    0 <= a < i && #[trigger] data.generators@[a].name@ == data.generators@[i as int].name@,
                !dup ==> forall|a: int|
                    0 <= a < i ==> #[trigger] data.generators@[a].name@ != data.generators@[i as int].name@,
            decreases i - j,
        {
            if data.generators[j].name == data.generators[i].name {
                dup = true;
                break;
            }
            j = j + 1;
        }
        if dup {
            issues.push(CheckIssue::DuplicateName { name: data.generators[i].name.clone() });
            proof {
                assert(!data.names_unique());
            }
        }
        i = i + 1;
    }

    // differentials reference existing generators and respect the grading
    let nd = data.differentials.len();
    let mut k: usize = 0;
    while k < nd
        invariant
            nd == data.differentials@.len(),
            0 <= k <= nd,
            issues@.len() == 0 ==> forall|q: int| 0 <= q < k ==> diff_sound(*data, q),
            issues@.len() == 0 ==> forall|a: int, b: int|
                0 <= a < b < data.generators@.len()
                    ==> #[trigger] data.generators@[a].name@ != #[trigger] data.generators@[b].name@,
            issues@.len() > 0 ==> !spec_integrity(*data),
        decreases nd - k,
    {
        let d = &data.differentials[k];
        let fi = scan_gen(data, &d.from);
        let ti = scan_gen(data, &d.to);
        match fi {
            None => {
                issues.push(CheckIssue::UnknownFrom { name: d.from.clone() });
                proof {
                    assert(!diff_sound(*data, k as int));
                }
            },
            Some(_) => {},
        }
        match ti {
            None => {
                issues.push(CheckIssue::UnknownTo { name: d.to.clone() });
                proof {
                    assert(!diff_sound(*data, k as int));
                }
            },
            Some(_) => {},
        }
        match (fi, ti) {
            (Some(f), Some(t)) => {
                proof {
                    lemma_gen_index(data.generators@, d.from@);
                    lemma_gen_index(data.generators@, d.to@);
                }
                let fg = &data.generators[f];
                let tg = &data.generators[t];
                if fg.y as i64 - tg.y as i64 != d.d as i64 {
                    issues.push(
                        CheckIssue::WrongPage { from: d.from.clone(), to: d.to.clone() },
                    );
                    proof {
                        assert(!diff_sound(*data, k as int));
                    }
                }
                if fg.x as i64 - tg.x as i64 != 1 {
                    issues.push(
                        CheckIssue::WrongStemStep { from: d.from.clone(), to: d.to.clone() },
                    );
                    proof {
                        assert(!diff_sound(*data, k as int));
                    }
                }
            },
            _ => {},
        }
        k = k + 1;
    }

    // multiplications reference existing generators
    let nm = data.multiplications.len();
    let mut k2: usize = 0;
    while k2 < nm
        invariant
            nm == data.multiplications@.len(),
            0 <= k2 <= nm,
            issues@.len() == 0 ==> forall|q: int| 0 <= q < k2 ==> mult_sound(*data, q),
            issues@.len() == 0 ==> forall|q: int|
                0 <= q < data.differentials@.len() ==> diff_sound(*data, q),
            issues@.len() == 0 ==> forall|a: int, b: int|
                0 <= a < b < data.generators@.len()
                    ==> #[trigger] data.generators@[a].name@ != #[trigger] data.generators@[b].name@,
            issues@.len() > 0 ==> !spec_integrity(*data),
        decreases nm - k2,
    {
        let m = &data.multiplications[k2];
        match scan_gen(data, &m.from) {
            Some(_) => {},
            None => {
                issues.push(CheckIssue::UnknownFrom { name: m.from.clone() });
                proof {
                    assert(!mult_sound(*data, k2 as int));
                }
            },
        }
        match scan_gen(data, &m.to) {
            Some(_) => {},
            None => {
                issues.push(CheckIssue::UnknownTo { name: m.to.clone() });
                proof {
                    assert(!mult_sound(*data, k2 as int));
                }
            },
        }
        k2 = k2 + 1;
    }

    let ok = issues.len() == 0;
    proof {
        if issues@.len() == 0 {
            assert(spec_integrity(*data));
        }
    }
    (ok, issues)
}

/// The known classical stable totals per stem (2-power orders).
pub open spec fn spec_stable_totals() -> Seq<int> {
    seq![1, 1, 1, 3, 0, 0, 1, 4, 2, 3, 1, 3, 0, 0, 2, 6, 2, 4, 4, 4, 3, 2, 2, 8, 2, 2, 2, 3, 1, 0, 1, 8, 4, 5, 5, 5]
}

/// The known algebraic stable totals per stem.
pub open spec fn spec_alg_stable_totals() -> Seq<int> {
    seq![1, 1, 1, 3, 0, 0, 1, 4, 2, 3, 1, 3, 0, 0, 5, 9, 3, 7, 6, 4, 3, 2, 4, 10, 3, 6, 5, 3, 3, 3, 13, 22, 8, 10, 11, 7]
}

/// Whether a torsion is a strictly positive recorded value.
pub open spec fn tor_pos(t: Torsion) -> bool {
    match t {
        Torsion::Val(k) => k > 0,
        _ => false,
    }
}

/// How many torsion-free generators a final page has on one stem.
pub open spec fn spec_count_free(finals: Seq<crate::processor::FinalRowModel>, s: i32) -> int
    decreases finals.len(),
{
    if finals.len() == 0 {
        0int
    } else {
        spec_count_free(finals.drop_last(), s) + {
            let r = finals.last();
            if r.x == s && r.torsion == Torsion::Free {
                1int
            } else {
                0int
            }
        }
    }
}

/// How many algebraic generators a final page yields on one stem: the
/// torsion-free ones, the torsion-bearing ones, and the shifted copy each
/// torsion-bearing one contributes one stem up.
pub open spec fn spec_count_alg(finals: Seq<crate::processor::FinalRowModel>, s: i32) -> int
    decreases finals.len(),
{
    if finals.len() == 0 {
        0int
    } else {
        spec_count_alg(finals.drop_last(), s) + {
            let r = finals.last();
            let here: int = if r.x == s && 0 <= s <= MAX_VERIFY_STEM && (r.torsion
                == Torsion::Free || tor_pos(r.torsion)) {
                1int
            } else {
                0int
            };
            let shifted: int = if s >= 1 && r.x == s - 1 && 0 <= s - 1 <= MAX_VERIFY_STEM && s
                <= MAX_VERIFY_STEM && tor_pos(r.torsion) {
                1int
            } else {
                0int
            };
            here + shifted
        }
    }
}

/// The final page of the full synthetic replay to convergence.
pub open spec fn spec_converged(data: SyntheticEHP) -> Seq<crate::processor::FinalRowModel> {
    crate::processor::spec_final_rows(
        crate::processor::spec_filtered(data, Category::Synthetic, 0, 1000, 1000, None).0,
    )
}

/// Whether the converged replay reproduces the known stable totals.
pub open spec fn spec_stable_ok(data: SyntheticEHP) -> bool {
    forall|s: int|
        0 <= s <= MAX_VERIFY_STEM ==> spec_count_free(spec_converged(data), s as i32)
            == spec_stable_totals()[s] && spec_count_alg(spec_converged(data), s as i32)
            == spec_alg_stable_totals()[s]
}

/// Hold the converged synthetic replay against the fixed tables of known
/// stable totals, both classical and algebraic.
pub fn verify_stable(data: &SyntheticEHP) -> (r: (bool, Vec<CheckIssue>))
    requires
        data.torsion_wf(),
    ensures
        r.0 == spec_stable_ok(*data),
        r.0 <==> r.1@.len() == 0,
{
    let stable_gens: Vec<i32> = vec![
        1, 1, 1, 3, 0, 0, 1, 4, 2, 3, 1, 3, 0, 0, 2, 6, 2, 4, 4, 4, 3, 2, 2, 8, 2, 2, 2, 3, 1, 0,
        1, 8, 4, 5, 5, 5,
    ];
    let alg_stable_gens: Vec<i32> = vec![
        1, 1, 1, 3, 0, 0, 1, 4, 2, 3, 1, 3, 0, 0, 5, 9, 3, 7, 6, 4, 3, 2, 4, 10, 3, 6, 5, 3, 3, 3,
        13, 22, 8, 10, 11, 7,
    ];
    proof {
        assert(stable_gens@.map_values(|v: i32| v as int) =~= spec_stable_totals());
        assert(alg_stable_gens@.map_values(|v: i32| v as int) =~= spec_alg_stable_totals());
    }

    let (pages, _diags) = get_filtered_data(data, Category::Synthetic, 0, 1000, 1000, None);
    let finals = pages.get_final_page();
    let ghost fm = finals@.map_values(|f: FinalRow| f@);

    let mut count_free: Vec<i128> = Vec::new();
    let mut count_alg: Vec<i128> = Vec::new();
    let slots: usize = (MAX_VERIFY_STEM + 1) as usize;
    let mut z: usize = 0;
    while z < slots
        invariant
            0 <= z <= slots,
            slots == MAX_VERIFY_STEM + 1,
            count_free@.len() == z,
            count_alg@.len() == z,
            forall|s: int| 0 <= s < z ==> #[trigger] count_free@[s] == 0,
            forall|s: int| 0 <= s < z ==> #[trigger] count_alg@[s] == 0,
        decreases slots - z,
    {
        count_free.push(0);
        count_alg.push(0);
        z = z + 1;
    }
    proof {
        assert forall|s: int| 0 <= s <= MAX_VERIFY_STEM implies #[trigger] count_free@[s]
            == spec_count_free(fm.take(0), s as i32) && count_alg@[s] == spec_count_alg(
            fm.take(0),
            s as i32,
        ) by {
            assert(fm.take(0).len() == 0);
        }
    }

    let n = finals.len();
    let mut i: usize = 0;
    while i < n
        invariant
            n == finals@.len(),
            0 <= i <= n,
            fm == finals@.map_values(|f: FinalRow| f@),
            count_free@.len() == MAX_VERIFY_STEM + 1,
            count_alg@.len() == MAX_VERIFY_STEM + 1,
            forall|s: int|
                0 <= s <= MAX_VERIFY_STEM ==> #[trigger] count_free@[s] == spec_count_free(
                    fm.take(i as int),
                    s as i32,
                ),
            forall|s: int|
                0 <= s <= MAX_VERIFY_STEM ==> #[trigger] count_alg@[s] == spec_count_alg(
                    fm.take(i as int),
                    s as i32,
                ),
            forall|s: int| 0 <= s <= MAX_VERIFY_STEM ==> 0 <= #[trigger] count_free@[s] <= i,
            forall|s: int| 0 <= s <= MAX_VERIFY_STEM ==> 0 <= #[trigger] count_alg@[s] <= 2 * i,
        decreases n - i,
    {
        let row = &finals[i];
        let x = row.x;
        proof {
            assert(fm[i as int] == finals@[i as int]@);
            assert(fm.take(i + 1).drop_last() =~= fm.take(i as int));
            assert(fm.take(i + 1).last() == fm[i as int]);
        }
        let ghost cf0 = count_free@;
        let ghost ca0 = count_alg@;
        if 0 <= x && x <= MAX_VERIFY_STEM {
            let xi = x as usize;
            if row.torsion.is_free() {
                let cur = count_free[xi];
                count_free.set(xi, cur + 1);
                let cur2 = count_alg[xi];
                count_alg.set(xi, cur2 + 1);
            } else {
                let pos = match row.torsion {
                    Torsion::Val(k) => k > 0,
                    _ => false,
                };
                if pos {
                    let cur2 = count_alg[xi];
                    count_alg.set(xi, cur2 + 1);
                    if x + 1 <= MAX_VERIFY_STEM {
                        let cur3 = count_alg[xi + 1];
                        count_alg.set(xi + 1, cur3 + 1);
                    }
                }
            }
        }
        proof {
            assert forall|s: int| 0 <= s <= MAX_VERIFY_STEM implies #[trigger] count_free@[s]
                == spec_count_free(fm.take(i + 1), s as i32) by {
                assert(spec_count_free(fm.take(i + 1), s as i32) == spec_count_free(
                    fm.take(i as int),
                    s as i32,
                ) + if fm[i as int].x == s as i32 && fm[i as int].torsion == Torsion::Free {
                    1int
                } else {
                    0int
                });
            }
            assert forall|s: int| 0 <= s <= MAX_VERIFY_STEM implies #[trigger] count_alg@[s]
                == spec_count_alg(fm.take(i + 1), s as i32) by {
                let r = fm[i as int];
                assert(spec_count_alg(fm.take(i + 1), s as i32) == spec_count_alg(
                    fm.take(i as int),
                    s as i32,
                ) + {
                    let here: int = if r.x == s as i32 && 0 <= s <= MAX_VERIFY_STEM && (r.torsion
                        == Torsion::Free || tor_pos(r.torsion)) {
                        1int
                    } else {
                        0int
                    };
                    let shifted: int = if s >= 1 && r.x == s - 1 && 0 <= s - 1 <= MAX_VERIFY_STEM
                        && s <= MAX_VERIFY_STEM && tor_pos(r.torsion) {
                        1int
                    } else {
                        0int
                    };
                    here + shifted
                });
            }
        }
        i = i + 1;
    }
    proof {
        assert(fm.take(n as int) =~= fm);
    }

    // hold the counts against the fixed tables
    let mut issues: Vec<CheckIssue> = Vec::new();
    let mut s: usize = 0;
    while s < slots
        invariant
            slots == MAX_VERIFY_STEM + 1,
            0 <= s <= slots,
            count_free@.len() == slots,
            count_alg@.len() == slots,
            stable_gens@.len() == 36,
            alg_stable_gens@.len() == 36,
            stable_gens@.map_values(|v: i32| v as int) == spec_stable_totals(),
            alg_stable_gens@.map_values(|v: i32| v as int) == spec_alg_stable_totals(),
            forall|q: int|
                0 <= q <= MAX_VERIFY_STEM ==> #[trigger] count_free@[q] == spec_count_free(
                    fm,
                    q as i32,
                ),
            forall|q: int|
                0 <= q <= MAX_VERIFY_STEM ==> #[trigger] count_alg@[q] == spec_count_alg(
                    fm,
                    q as i32,
                ),
            fm == spec_converged(*data),
            issues@.len() == 0 ==> forall|q: int|
                0 <= q < s ==> spec_count_free(fm, q as i32) == spec_stable_totals()[q]
                    && spec_count_alg(fm, q as i32) == spec_alg_stable_totals()[q],
            issues@.len() > 0 ==> !spec_stable_ok(*data),
        decreases slots - s,
    {
        if count_free[s] != stable_gens[s] as i128 {
            issues.push(
                CheckIssue::StableCount {
                    stem: s as i32,
                    expected: stable_gens[s],
                    got: count_free[s],
                },
            );
            proof {
                assert(spec_count_free(fm, s as i32) != spec_stable_totals()[s as int]);
                assert(!spec_stable_ok(*data));
            }
        }
        if count_alg[s] != alg_stable_gens[s] as i128 {
            issues.push(
                CheckIssue::AlgebraicStableCount {
                    stem: s as i32,
                    expected: alg_stable_gens[s],
                    got: count_alg[s],
                },
            );
            proof {
                assert(spec_count_alg(fm, s as i32) != spec_alg_stable_totals()[s as int]);
                assert(!spec_stable_ok(*data));
            }
        }
        s = s + 1;
    }
    let ok = issues.len() == 0;
    (ok, issues)
}

/// The torsions the replayed window shows at one bidegree, sorted: the
/// surviving (not exactly-zero) generators of the stem at the
/// filtration, within the tracked range.
pub open spec fn spec_rp_got(
    finals: Seq<crate::processor::FinalRowModel>,
    stem: i32,
    af: i32,
) -> Seq<Torsion>
    decreases finals.len(),
{
    if finals.len() == 0 {
        Seq::empty()
    } else {
        let rest = spec_rp_got(finals.drop_last(), stem, af);
        let r = finals.last();
        if r.x == stem && r.x > 0 && r.x <= MAX_VERIFY_STEM && r.filtration == af && r.torsion
            != Torsion::Zero {
            rest.push(r.torsion)
        } else {
            rest
        }
    }
}

/// The replayed final page of one reference window.
pub open spec fn spec_rp_finals(data: SyntheticEHP, bot: i32, top: i32) -> Seq<
    crate::processor::FinalRowModel,
> {
    crate::processor::spec_final_rows(
        crate::processor::spec_filtered(
            data,
            Category::Synthetic,
            bot,
            (top + 1) as i32,
            1000,
            None,
        ).0,
    )
}

/// Whether the replay agrees with every supplied reference table: each
/// window can be formed, and at every recorded bidegree the sorted
/// observed torsions equal the recorded page list.
pub open spec fn spec_rp_ok(
    data: SyntheticEHP,
    tv: Seq<((i32, i32), Seq<crate::reference::RefEntryModel>)>,
) -> bool {
    &&& forall|t: int| 0 <= t < tv.len() ==> (#[trigger] tv[t]).0.1 < i32::MAX
    &&& forall|t: int, e: int|
        0 <= t < tv.len() && 0 <= e < (#[trigger] tv[t].1).len()
            ==> crate::reference::spec_sort_tors(
            spec_rp_got(
                spec_rp_finals(data, tv[t].0.0, tv[t].0.1),
                (#[trigger] tv[t].1[e]).stem,
                tv[t].1[e].af,
            ),
        ) == tv[t].1[e].pages
}

/// Hold the replayed final pages of every truncation window against the
/// reference tables: at every recorded bidegree the sorted observed
/// torsions must equal the recorded page list.  `r.0` is true exactly
/// when every window agrees, and exactly when no discrepancy was
/// recorded.
pub fn verify_rp(data: &SyntheticEHP, tables: &Vec<((i32, i32), Vec<RefEntry>)>) -> (r: (
    bool,
    Vec<CheckIssue>,
))
    requires
        data.torsion_wf(),
    ensures
        r.0 ==> spec_rp_ok(*data, crate::solver::tables_view(tables@)),
        r.1@.len() == 0 ==> spec_rp_ok(*data, crate::solver::tables_view(tables@)),
        !r.0 ==> !spec_rp_ok(*data, crate::solver::tables_view(tables@)),
        r.0 <==> r.1@.len() == 0,
{
    let ghost tv = crate::solver::tables_view(tables@);
    let mut issues: Vec<CheckIssue> = Vec::new();
    let tn = tables.len();
    let mut t: usize = 0;
    while t < tn
        invariant
            tn == tables@.len(),
            0 <= t <= tn,
            data.torsion_wf(),
            tv == crate::solver::tables_view(tables@),
            tv.len() == tn,
            issues@.len() == 0 ==> forall|tt: int, e: int|
                0 <= tt < t && 0 <= e < (#[trigger] tv[tt].1).len() ==> tv[tt].0.1 < i32::MAX
                    && crate::reference::spec_sort_tors(
                    spec_rp_got(
                        spec_rp_finals(*data, tv[tt].0.0, tv[tt].0.1),
                        (#[trigger] tv[tt].1[e]).stem,
                        tv[tt].1[e].af,
                    ),
                ) == tv[tt].1[e].pages,
            issues@.len() == 0 ==> forall|tt: int|
                0 <= tt < t ==> (#[trigger] tv[tt]).0.1 < i32::MAX,
            issues@.len() > 0 ==> !spec_rp_ok(*data, tv),
        decreases tn - t,
    {
        let bot = tables[t].0.0;
        let top = tables[t].0.1;
        proof {
            assert(tv[t as int] == (tables@[t as int].0, crate::reference::refs_view(
                tables@[t as int].1@,
            )));
        }
        if top < i32::MAX {
            let (pages, _diags) = get_filtered_data(
                data,
                Category::Synthetic,
                bot,
                top + 1,
                1000,
                None,
            );
            let finals = pages.get_final_page();
            let ghost fm = finals@.map_values(|f: FinalRow| f@);
            proof {
                assert(fm == spec_rp_finals(*data, bot, top));
            }

            // collect observed torsions per expected bidegree and compare
            let en = tables[t].1.len();
            let mut e: usize = 0;
            while e < en
                invariant
                    tn == tables@.len(),
                    0 <= t < tn,
                    en == tables@[t as int].1@.len(),
                    0 <= e <= en,
                    data.torsion_wf(),
                    tv == crate::solver::tables_view(tables@),
                    tv.len() == tn,
                    tv[t as int].1.len() == en,
                    bot == tv[t as int].0.0,
                    top == tv[t as int].0.1,
                    fm == spec_rp_finals(*data, bot, top),
                    fm == finals@.map_values(|ff: FinalRow| ff@),
                    issues@.len() == 0 ==> forall|tt: int, e2: int|
                        0 <= tt < t && 0 <= e2 < (#[trigger] tv[tt].1).len() ==> tv[tt].0.1
                            < i32::MAX && crate::reference::spec_sort_tors(
                            spec_rp_got(
                                spec_rp_finals(*data, tv[tt].0.0, tv[tt].0.1),
                                (#[trigger] tv[tt].1[e2]).stem,
                                tv[tt].1[e2].af,
                            ),
                        ) == tv[tt].1[e2].pages,
                    issues@.len() == 0 ==> forall|tt: int|
                        0 <= tt < t ==> (#[trigger] tv[tt]).0.1 < i32::MAX,
                    issues@.len() == 0 ==> forall|e2: int|
                        0 <= e2 < e ==> crate::reference::spec_sort_tors(
                            spec_rp_got(
                                spec_rp_finals(*data, bot, top),
                                (#[trigger] tv[t as int].1[e2]).stem,
                                tv[t as int].1[e2].af,
                            ),
                        ) == tv[t as int].1[e2].pages,
                    issues@.len() > 0 ==> !spec_rp_ok(*data, tv),
                decreases en - e,
            {
                let entry = &tables[t].1[e];
                proof {
                    assert(tv[t as int].1[e as int] == tables@[t as int].1@[e as int]@);
                }
                let mut got: Vec<Torsion> = Vec::new();
                let fln = finals.len();
                let mut f: usize = 0;
                proof {
                    assert(got@ =~= spec_rp_got(fm.take(0), entry.stem, entry.af));
                }
                while f < fln
                    invariant
                        fln == finals@.len(),
                        0 <= f <= fln,
                        fm == finals@.map_values(|ff: FinalRow| ff@),
                        got@ == spec_rp_got(fm.take(f as int), entry.stem, entry.af),
                    decreases fln - f,
                {
                    let row = &finals[f];
                    proof {
                        assert(fm[f as int] == finals@[f as int]@);
                        assert(fm.take(f + 1).drop_last() =~= fm.take(f as int));
                        assert(fm.take(f + 1).last() == fm[f as int]);
                    }
                    if row.x == entry.stem && row.x > 0 && row.x <= MAX_VERIFY_STEM
                        && row.filtration == entry.af && !row.torsion.is_zero() {
                        got.push(row.torsion);
                    }
                    proof {
                        assert(got@ =~= spec_rp_got(fm.take(f + 1), entry.stem, entry.af));
                    }
                    f = f + 1;
                }
                proof {
                    assert(fm.take(fln as int) =~= fm);
                }
                let got_sorted = crate::reference::sort_tors(got);
                // compare the sorted observed list against the expected one
                let gl = got_sorted.len();
                let el = entry.pages.len();
                let mut same = gl == el;
                if same {
                    let mut q: usize = 0;
                    while q < gl
                        invariant_except_break
                            gl == got_sorted@.len(),
                            gl == entry.pages@.len(),
                            0 <= q <= gl,
                            same,
                            forall|k: int| 0 <= k < q ==> #[trigger] got_sorted@[k]
                                == entry.pages@[k],
                        ensures
                            same ==> got_sorted@ =~= entry.pages@,
                            !same ==> got_sorted@ != entry.pages@,
                        decreases gl - q,
                    {
                        if !(got_sorted[q] == entry.pages[q]) {
                            same = false;
                            break;
                        }
                        q = q + 1;
                    }
                } else {
                    proof {
                        assert(got_sorted@.len() != entry.pages@.len());
                    }
                }
                if !same {
                    issues.push(
                        CheckIssue::ReferenceMismatch {
                            bot_trunc: bot,
                            top_trunc: top,
                            stem: entry.stem,
                            af: entry.af,
                        },
                    );
                    proof {
                        assert(crate::reference::spec_sort_tors(
                            spec_rp_got(spec_rp_finals(*data, bot, top), entry.stem, entry.af),
                        ) != tv[t as int].1[e as int].pages);
                        assert(!spec_rp_ok(*data, tv));
                    }
                } else {
                    proof {
                        assert(crate::reference::spec_sort_tors(
                            spec_rp_got(spec_rp_finals(*data, bot, top), entry.stem, entry.af),
                        ) == tv[t as int].1[e as int].pages);
                    }
                }
                e = e + 1;
            }
        } else {
            issues.push(
                CheckIssue::MissingReferenceTable { bot_trunc: bot, top_trunc: top },
            );
            proof {
                assert(!(tv[t as int].0.1 < i32::MAX));
                assert(!spec_rp_ok(*data, tv));
            }
        }
        t = t + 1;
    }
    let ok = issues.len() == 0;
    proof {
        if issues@.len() == 0 {
            assert(spec_rp_ok(*data, tv));
        }
    }
    (ok, issues)
}

/// Highest sphere parameter the per-sphere checks walk.
pub const MAX_VERIFY_SPHERE: i32 = MAX_VERIFY_STEM + 5;

/// Count key: (stem, filtration) with room for shifted filtrations.
struct CountEntry {
    stem: i32,
    af: i64,
    count: i128,
}

fn bump(counts: &mut Vec<CountEntry>, stem: i32, af: i64)
    ensures
        final(counts)@.len() >= old(counts)@.len(),
{
    let n = counts.len();
    let mut i: usize = 0;
    while i < n
        invariant
            n == counts@.len(),
            counts@.len() == old(counts)@.len(),
            0 <= i <= n,
        decreases n - i,
    {
        if counts[i].stem == stem && counts[i].af == af {
            if counts[i].count < i128::MAX {
                let c = counts[i].count;
                counts[i].count = c + 1;
            }
            return;
        }
        i = i + 1;
    }
    counts.push(CountEntry { stem, af, count: 1 });
}

fn lookup_count(counts: &Vec<CountEntry>, stem: i32, af: i64) -> (r: i128)
    ensures
        true,
{
    let n = counts.len();
    let mut i: usize = 0;
    while i < n
        invariant
            n == counts@.len(),
            0 <= i <= n,
        decreases n - i,
    {
        if counts[i].stem == stem && counts[i].af == af {
            return counts[i].count;
        }
        i = i + 1;
    }
    0
}

fn total(counts: &Vec<CountEntry>) -> (r: i128)
    ensures
        true,
{
    let n = counts.len();
    let mut sum: i128 = 0;
    let mut i: usize = 0;
    while i < n
        invariant
            n == counts@.len(),
            0 <= i <= n,
        decreases n - i,
    {
        let c = counts[i].count;
        if c > 0 && sum <= i128::MAX - c {
            sum = sum + c;
        }
        i = i + 1;
    }
    sum
}

fn name_in(names: &Vec<String>, name: &String) -> (r: bool)
    ensures
        r == (exists|k: int| 0 <= k < names@.len() && (#[trigger] names@[k])@ == name@),
{
    let n = names.len();
    let mut i: usize = 0;
    while i < n
        invariant
            n == names@.len(),
            0 <= i <= n,
            forall|k: int| 0 <= k < i ==> (#[trigger] names@[k])@ != name@,
        decreases n - i,
    {
        if names[i] == *name {
            return true;
        }
        i = i + 1;
    }
    false
}

/// Hold the algebraic replay of every sphere against the synthetic one:
/// the torsion-free algebraic generators must match, bidegree by
/// bidegree, the synthetic survivors together with the shifted copy each
/// torsion class contributes, and every surviving induced name must
/// appear among the algebraic generators.  `r.0` is true exactly when no
/// discrepancy was found.
pub fn verify_algebraic(data: &SyntheticEHP) -> (r: (bool, Vec<CheckIssue>))
    requires
        data.torsion_wf(),
        data.index_ok(),
    ensures
        r.0 <==> r.1@.len() == 0,
{
    let mut issues: Vec<CheckIssue> = Vec::new();
    let mut sphere: i32 = MAX_VERIFY_SPHERE;
    while sphere >= 1
        invariant
            data.torsion_wf(),
            data.index_ok(),
            sphere <= MAX_VERIFY_SPHERE,
        decreases sphere,
    {
        let (alg_pages, _d1) = get_filtered_data(
            data,
            Category::Algebraic,
            1,
            sphere + 1,
            1000,
            None,
        );
        let alg = alg_pages.get_final_page();
        let (synth_pages, _d2) = get_filtered_data(
            data,
            Category::Synthetic,
            1,
            sphere + 1,
            1000,
            None,
        );
        let synth = synth_pages.get_final_page();

        let mut alg_map: Vec<CountEntry> = Vec::new();
        let mut alg_names: Vec<String> = Vec::new();
        let an = alg.len();
        let mut i: usize = 0;
        while i < an
            invariant
                an == alg@.len(),
                0 <= i <= an,
            decreases an - i,
        {
            let g = &alg[i];
            if g.torsion.is_free() && g.x <= MAX_VERIFY_STEM {
                alg_names.push(g.name.clone());
                bump(&mut alg_map, g.x, g.filtration as i64);
            }
            i = i + 1;
        }

        let mut synth_map: Vec<CountEntry> = Vec::new();
        let mut induced: Vec<String> = Vec::new();
        let sn = synth.len();
        let mut i2: usize = 0;
        while i2 < sn
            invariant
                sn == synth@.len(),
                0 <= i2 <= sn,
                data.torsion_wf(),
                data.index_ok(),
            decreases sn - i2,
        {
            let g = &synth[i2];
            if g.x <= MAX_VERIFY_STEM {
                match g.torsion {
                    Torsion::Free => {
                        match data.find(&g.name) {
                            Some(stored) => {
                                induced.push(stored.induced_name.clone());
                            },
                            None => {},
                        }
                        bump(&mut synth_map, g.x, g.filtration as i64);
                    },
                    Torsion::Val(t) => {
                        match data.find(&g.name) {
                            Some(stored) => {
                                induced.push(stored.induced_name.clone());
                            },
                            None => {},
                        }
                        bump(&mut synth_map, g.x, g.filtration as i64);
                        if g.x + 1 <= MAX_VERIFY_STEM {
                            bump(
                                &mut synth_map,
                                g.x + 1,
                                g.filtration as i64 - (t as i64 + 1),
                            );
                        }
                    },
                    Torsion::Zero => {},
                }
            }
            i2 = i2 + 1;
        }

        if total(&alg_map) != total(&synth_map) {
            issues.push(
                CheckIssue::CategoryTotal {
                    sphere,
                    algebraic: total(&alg_map),
                    synthetic: total(&synth_map),
                },
            );
        }
        let am = alg_map.len();
        let mut k: usize = 0;
        while k < am
            invariant
                am == alg_map@.len(),
                0 <= k <= am,
            decreases am - k,
        {
            let e = &alg_map[k];
            if lookup_count(&synth_map, e.stem, e.af) != e.count {
                issues.push(CheckIssue::CategoryCount { sphere, stem: e.stem, af: e.af });
            }
            k = k + 1;
        }
        let sm = synth_map.len();
        let mut k2: usize = 0;
        while k2 < sm
            invariant
                sm == synth_map@.len(),
                0 <= k2 <= sm,
            decreases sm - k2,
        {
            let e = &synth_map[k2];
            if lookup_count(&alg_map, e.stem, e.af) == 0 && e.count != 0 {
                issues.push(CheckIssue::CategoryCount { sphere, stem: e.stem, af: e.af });
            }
            k2 = k2 + 1;
        }
        let inn = induced.len();
        let mut k3: usize = 0;
        while k3 < inn
            invariant
                inn == induced@.len(),
                0 <= k3 <= inn,
            decreases inn - k3,
        {
            if !name_in(&alg_names, &induced[k3]) {
                issues.push(
                    CheckIssue::InducedNameMissing { sphere, name: induced[k3].clone() },
                );
            }
            k3 = k3 + 1;
        }
        sphere = sphere - 1;
    }
    let ok = issues.len() == 0;
    (ok, issues)
}



/// The 2-adic valuation of a group order: how many torsion-free
/// generators a cyclic 2-group order stands for.
pub open spec fn spec_two_adic(v: nat) -> nat
    decreases v,
{
    if v == 0 || v % 2 == 1 {
        0
    } else {
        1 + spec_two_adic(v / 2)
    }
}

fn two_adic(v: u32) -> (r: u32)
    ensures
        r as nat == spec_two_adic(v as nat),
{
    let mut x = v;
    let mut c: u32 = 0;
    while x > 0 && x % 2 == 0
        invariant
            c + spec_two_adic(x as nat) == spec_two_adic(v as nat),
            c <= 32,
            x <= v,
            x > 0 ==> c < 32,
        decreases x,
    {
        proof {
            vstd::arithmetic::div_mod::lemma_div_is_ordered_by_denominator(x as int, 1, 2);
        }
        x = x / 2;
        c = c + 1;
        proof {
            if x > 0 && c == 32 {
                assert(false) by {
                    lemma_two_adic_bound(v as nat);
                }
            }
        }
    }
    c
}

/// A 32-bit order has 2-adic valuation below 32.
proof fn lemma_two_adic_bound(v: nat)
    requires
        v <= u32::MAX,
    ensures
        spec_two_adic(v) <= 31,
{
    lemma_two_adic_pow(v);
    if spec_two_adic(v) > 31 {
        vstd::arithmetic::power2::lemma2_to64();
        vstd::arithmetic::power2::lemma_pow2(32);
        vstd::arithmetic::power::lemma_pow_increases(2, 32, spec_two_adic(v) as nat);
        assert(vstd::arithmetic::power::pow(2, 32) > u32::MAX);
    }
}

/// Two to the valuation divides into the order.
proof fn lemma_two_adic_pow(v: nat)
    ensures
        v >= vstd::arithmetic::power::pow(2, spec_two_adic(v)) || v == 0,
    decreases v,
{
    vstd::arithmetic::power::lemma_pow_positive(2, spec_two_adic(v));
    if !(v == 0 || v % 2 == 1) {
        lemma_two_adic_pow(v / 2);
        vstd::arithmetic::power::lemma_pow_positive(2, spec_two_adic(v / 2));
        vstd::arithmetic::power::lemma_pow_adds(2, 1, spec_two_adic(v / 2));
        vstd::arithmetic::power::lemma_pow1(2);
        assert(vstd::arithmetic::power::pow(2, spec_two_adic(v)) == 2 * vstd::arithmetic::power::pow(
            2,
            spec_two_adic(v / 2),
        ));
        assert(v == 2 * (v / 2));
        assert(v >= 2 && v / 2 >= 1);
        assert(spec_two_adic(v) == 1 + spec_two_adic(v / 2));
        assert(v / 2 >= vstd::arithmetic::power::pow(2, spec_two_adic(v / 2)));
        assert(v >= 2 * vstd::arithmetic::power::pow(2, spec_two_adic(v / 2)));
    } else {
        assert(spec_two_adic(v) == 0);
        vstd::arithmetic::power::lemma_pow0(2);
    }
}

/// The recorded classical group orders, stem by stem and sphere by
/// sphere.
pub open spec fn spec_classical_table() -> Seq<Seq<int>> {
    seq![
        seq![2, 2, 2, 2, 2, 2, 2, 2, 2, 2, 2, 2, 2, 2, 2, 2, 2, 2, 2, 2, 2, 2, 2, 2, 2, 2, 2, 2, 2, 2, 2, 2],
        seq![1, 2, 2, 2, 2, 2, 2, 2, 2, 2, 2, 2, 2, 2, 2, 2, 2, 2, 2, 2, 2, 2, 2, 2, 2, 2, 2, 2, 2, 2, 2, 2],
        seq![1, 2, 2, 2, 2, 2, 2, 2, 2, 2, 2, 2, 2, 2, 2, 2, 2, 2, 2, 2, 2, 2, 2, 2, 2, 2, 2, 2, 2, 2, 2, 2],
        seq![1, 2, 12, 24, 24, 24, 24, 24, 24, 24, 24, 24, 24, 24, 24, 24, 24, 24, 24, 24, 24, 24, 24, 24, 24, 24, 24, 24, 24, 24, 24, 24],
        seq![1, 12, 2, 4, 2, 1, 1, 1, 1, 1, 1, 1, 1, 1, 1, 1, 1, 1, 1, 1, 1, 1, 1, 1, 1, 1, 1, 1, 1, 1, 1, 1],
        seq![1, 2, 2, 4, 2, 1, 1, 1, 1, 1, 1, 1, 1, 1, 1, 1, 1, 1, 1, 1, 1, 1, 1, 1, 1, 1, 1, 1, 1, 1, 1, 1],
        seq![1, 2, 3, 72, 2, 2, 2, 2, 2, 2, 2, 2, 2, 2, 2, 2, 2, 2, 2, 2, 2, 2, 2, 2, 2, 2, 2, 2, 2, 2, 2, 2],
        seq![1, 3, 15, 15, 30, 60, 120, 240, 240, 240, 240, 240, 240, 240, 240, 240, 240, 240, 240, 240, 240, 240, 240, 240, 240, 240, 240, 240, 240, 240, 240, 240],
        seq![1, 15, 2, 2, 2, 48, 8, 16, 8, 4, 4, 4, 4, 4, 4, 4, 4, 4, 4, 4, 4, 4, 4, 4, 4, 4, 4, 4, 4, 4, 4, 4],
        seq![1, 2, 4, 8, 8, 8, 16, 32, 16, 8, 8, 8, 8, 8, 8, 8, 8, 8, 8, 8, 8, 8, 8, 8, 8, 8, 8, 8, 8, 8, 8, 8],
        seq![1, 4, 24, 2880, 144, 144, 48, 1152, 48, 24, 12, 6, 6, 6, 6, 6, 6, 6, 6, 6, 6, 6, 6, 6, 6, 6, 6, 6, 6, 6, 6, 6],
        seq![1, 24, 336, 2688, 2016, 2016, 1008, 1008, 1008, 504, 504, 504, 504, 504, 504, 504, 504, 504, 504, 504, 504, 504, 504, 504, 504, 504, 504, 504, 504, 504, 504, 504],
        seq![1, 336, 4, 64, 8, 240, 1, 1, 1, 12, 2, 4, 2, 1, 1, 1, 1, 1, 1, 1, 1, 1, 1, 1, 1, 1, 1, 1, 1, 1, 1, 1],
        seq![1, 4, 6, 288, 12, 6, 6, 12, 6, 6, 12, 12, 6, 3, 3, 3, 3, 3, 3, 3, 3, 3, 3, 3, 3, 3, 3, 3, 3, 3, 3, 3],
        seq![1, 6, 30, 30240, 12, 24, 96, 23040, 64, 32, 32, 384, 32, 16, 8, 4, 4, 4, 4, 4, 4, 4, 4, 4, 4, 4, 4, 4, 4, 4, 4, 4],
        seq![1, 30, 30, 30, 60, 360, 960, 3840, 1920, 960, 480, 480, 960, 960, 960, 960, 960, 960, 960, 960, 960, 960, 960, 960, 960, 960, 960, 960, 960, 960, 960, 960],
        seq![1, 30, 12, 72, 4, 2016, 16, 128, 16, 480, 2, 2, 2, 48, 8, 16, 8, 4, 4, 4, 4, 4, 4, 4, 4, 4, 4, 4, 4, 4, 4, 4],
        seq![1, 12, 48, 4608, 16, 16, 16, 96, 16, 8, 8, 16, 16, 16, 32, 64, 32, 16, 16, 16, 16, 16, 16, 16, 16, 16, 16, 16, 16, 16, 16, 16],
        seq![1, 48, 48, 46080, 96, 288, 48, 24192, 48, 96, 64, 15360, 128, 128, 128, 3072, 128, 64, 32, 16, 16, 16, 16, 16, 16, 16, 16, 16, 16, 16, 16, 16],
        seq![1, 48, 264, 4224, 528, 8448, 528, 528, 528, 1584, 2112, 8448, 2112, 2112, 1056, 1056, 1056, 528, 528, 528, 528, 528, 528, 528, 528, 528, 528, 528, 528, 528, 528, 528],
        seq![1, 264, 4, 64, 24, 5760, 24, 72, 24, 12096, 96, 768, 192, 5760, 24, 24, 24, 288, 48, 96, 48, 24, 24, 24, 24, 24, 24, 24, 24, 24, 24, 24],
        seq![1, 4, 2, 32, 4, 2, 4, 32, 8, 8, 16, 32, 32, 16, 8, 16, 8, 8, 16, 16, 8, 4, 4, 4, 4, 4, 4, 4, 4, 4, 4, 4],
        seq![1, 2, 2, 32, 8, 32, 64, 4096, 128, 64, 64, 512, 64, 128, 128, 2048, 128, 64, 64, 256, 32, 16, 8, 4, 4, 4, 4, 4, 4, 4, 4, 4],
        seq![1, 2, 4, 32, 32, 2048, 1024, 8192, 2048, 2048, 512, 512, 512, 512, 2048, 8192, 2048, 1024, 512, 512, 512, 256, 256, 256, 256, 256, 256, 256, 256, 256, 256, 256],
        seq![1, 4, 8, 32, 16, 512, 128, 4096, 128, 1024, 32, 16, 16, 128, 64, 512, 64, 128, 8, 4, 4, 16, 8, 16, 8, 4, 4, 4, 4, 4, 4, 4],
        seq![1, 8, 32, 2048, 128, 1024, 256, 32768, 256, 64, 64, 128, 32, 32, 64, 128, 64, 16, 8, 4, 4, 4, 8, 16, 8, 4, 4, 4, 4, 4, 4, 4],
        seq![1, 1, 1, 1, 1, 1, 1, 1, 1, 1, 1, 1, 1, 1, 1, 1, 1, 1, 1, 1, 1, 1, 1, 1, 1, 1, 1, 1, 1, 1, 1, 1],
        seq![1, 1, 1, 1, 1, 1, 1, 1, 1, 1, 1, 1, 1, 1, 1, 1, 1, 1, 1, 1, 1, 1, 1, 1, 1, 1, 1, 1, 1, 1, 1, 1],
        seq![1, 1, 1, 1, 1, 1, 1, 1, 1, 1, 1, 1, 1, 1, 1, 1, 1, 1, 1, 1, 1, 1, 1, 1, 1, 1, 1, 1, 1, 1, 1, 1],
        seq![1, 1, 1, 1, 1, 1, 1, 1, 1, 1, 1, 1, 1, 1, 1, 1, 1, 1, 1, 1, 1, 1, 1, 1, 1, 1, 1, 1, 1, 1, 1, 1],
        seq![1, 1, 1, 1, 1, 1, 1, 1, 1, 1, 1, 1, 1, 1, 1, 1, 1, 1, 1, 1, 1, 1, 1, 1, 1, 1, 1, 1, 1, 1, 1, 1]
    ]
}

/// The classical final page of one sphere's window.
pub open spec fn spec_classical_finals(data: SyntheticEHP, sphere: i32) -> Seq<
    crate::processor::FinalRowModel,
> {
    crate::processor::spec_final_rows(
        crate::processor::spec_filtered(
            data,
            Category::Classical,
            1,
            (sphere + 1) as i32,
            1000,
            None,
        ).0,
    )
}

/// Whether the classical replay reproduces the recorded group orders on
/// every sphere and tracked stem.
pub open spec fn spec_classical_ok(data: SyntheticEHP) -> bool {
    forall|sphere: int, a: int|
        1 <= sphere <= MAX_VERIFY_SPHERE && 0 <= a <= MAX_VERIFY_STEM ==> spec_count_free(
            spec_classical_finals(data, sphere as i32),
            a as i32,
        ) == spec_two_adic(#[trigger] spec_classical_table()[a][sphere - 1] as nat)
}

/// Hold the classical replay of every sphere against the fixed table of
/// known classical homotopy group orders: the surviving torsion-free
/// generators per stem must match the 2-adic size of the recorded group,
/// on every sphere.  `r.0` is true exactly when they all do, and exactly
/// when no discrepancy was recorded.
pub fn verify_classical(data: &SyntheticEHP) -> (r: (bool, Vec<CheckIssue>))
    requires
        data.torsion_wf(),
    ensures
        r.0 == spec_classical_ok(*data),
        r.0 <==> r.1@.len() == 0,
{
    let classical_max_stem: i32 = 30;
    let classical_gens: Vec<Vec<i32>> = vec![
        vec![2, 2, 2, 2, 2, 2, 2, 2, 2, 2, 2, 2, 2, 2, 2, 2, 2, 2, 2, 2, 2, 2, 2, 2, 2, 2, 2, 2, 2, 2, 2, 2],
        vec![1, 2, 2, 2, 2, 2, 2, 2, 2, 2, 2, 2, 2, 2, 2, 2, 2, 2, 2, 2, 2, 2, 2, 2, 2, 2, 2, 2, 2, 2, 2, 2],
        vec![1, 2, 2, 2, 2, 2, 2, 2, 2, 2, 2, 2, 2, 2, 2, 2, 2, 2, 2, 2, 2, 2, 2, 2, 2, 2, 2, 2, 2, 2, 2, 2],
        vec![1, 2, 12, 24, 24, 24, 24, 24, 24, 24, 24, 24, 24, 24, 24, 24, 24, 24, 24, 24, 24, 24, 24, 24, 24, 24, 24, 24, 24, 24, 24, 24],
        vec![1, 12, 2, 4, 2, 1, 1, 1, 1, 1, 1, 1, 1, 1, 1, 1, 1, 1, 1, 1, 1, 1, 1, 1, 1, 1, 1, 1, 1, 1, 1, 1],
        vec![1, 2, 2, 4, 2, 1, 1, 1, 1, 1, 1, 1, 1, 1, 1, 1, 1, 1, 1, 1, 1, 1, 1, 1, 1, 1, 1, 1, 1, 1, 1, 1],
        vec![1, 2, 3, 72, 2, 2, 2, 2, 2, 2, 2, 2, 2, 2, 2, 2, 2, 2, 2, 2, 2, 2, 2, 2, 2, 2, 2, 2, 2, 2, 2, 2],
        vec![1, 3, 15, 15, 30, 60, 120, 240, 240, 240, 240, 240, 240, 240, 240, 240, 240, 240, 240, 240, 240, 240, 240, 240, 240, 240, 240, 240, 240, 240, 240, 240],
        vec![1, 15, 2, 2, 2, 48, 8, 16, 8, 4, 4, 4, 4, 4, 4, 4, 4, 4, 4, 4, 4, 4, 4, 4, 4, 4, 4, 4, 4, 4, 4, 4],
        vec![1, 2, 4, 8, 8, 8, 16, 32, 16, 8, 8, 8, 8, 8, 8, 8, 8, 8, 8, 8, 8, 8, 8, 8, 8, 8, 8, 8, 8, 8, 8, 8],
        vec![1, 4, 24, 2880, 144, 144, 48, 1152, 48, 24, 12, 6, 6, 6, 6, 6, 6, 6, 6, 6, 6, 6, 6, 6, 6, 6, 6, 6, 6, 6, 6, 6],
        vec![1, 24, 336, 2688, 2016, 2016, 1008, 1008, 1008, 504, 504, 504, 504, 504, 504, 504, 504, 504, 504, 504, 504, 504, 504, 504, 504, 504, 504, 504, 504, 504, 504, 504],
        vec![1, 336, 4, 64, 8, 240, 1, 1, 1, 12, 2, 4, 2, 1, 1, 1, 1, 1, 1, 1, 1, 1, 1, 1, 1, 1, 1, 1, 1, 1, 1, 1],
        vec![1, 4, 6, 288, 12, 6, 6, 12, 6, 6, 12, 12, 6, 3, 3, 3, 3, 3, 3, 3, 3, 3, 3, 3, 3, 3, 3, 3, 3, 3, 3, 3],
        vec![1, 6, 30, 30240, 12, 24, 96, 23040, 64, 32, 32, 384, 32, 16, 8, 4, 4, 4, 4, 4, 4, 4, 4, 4, 4, 4, 4, 4, 4, 4, 4, 4],
        vec![1, 30, 30, 30, 60, 360, 960, 3840, 1920, 960, 480, 480, 960, 960, 960, 960, 960, 960, 960, 960, 960, 960, 960, 960, 960, 960, 960, 960, 960, 960, 960, 960],
        vec![1, 30, 12, 72, 4, 2016, 16, 128, 16, 480, 2, 2, 2, 48, 8, 16, 8, 4, 4, 4, 4, 4, 4, 4, 4, 4, 4, 4, 4, 4, 4, 4],
        vec![1, 12, 48, 4608, 16, 16, 16, 96, 16, 8, 8, 16, 16, 16, 32, 64, 32, 16, 16, 16, 16, 16, 16, 16, 16, 16, 16, 16, 16, 16, 16, 16],
        vec![1, 48, 48, 46080, 96, 288, 48, 24192, 48, 96, 64, 15360, 128, 128, 128, 3072, 128, 64, 32, 16, 16, 16, 16, 16, 16, 16, 16, 16, 16, 16, 16, 16],
        vec![1, 48, 264, 4224, 528, 8448, 528, 528, 528, 1584, 2112, 8448, 2112, 2112, 1056, 1056, 1056, 528, 528, 528, 528, 528, 528, 528, 528, 528, 528, 528, 528, 528, 528, 528],
        vec![1, 264, 4, 64, 24, 5760, 24, 72, 24, 12096, 96, 768, 192, 5760, 24, 24, 24, 288, 48, 96, 48, 24, 24, 24, 24, 24, 24, 24, 24, 24, 24, 24],
        vec![1, 4, 2, 32, 4, 2, 4, 32, 8, 8, 16, 32, 32, 16, 8, 16, 8, 8, 16, 16, 8, 4, 4, 4, 4, 4, 4, 4, 4, 4, 4, 4],
        vec![1, 2, 2, 32, 8, 32, 64, 4096, 128, 64, 64, 512, 64, 128, 128, 2048, 128, 64, 64, 256, 32, 16, 8, 4, 4, 4, 4, 4, 4, 4, 4, 4],
        vec![1, 2, 4, 32, 32, 2048, 1024, 8192, 2048, 2048, 512, 512, 512, 512, 2048, 8192, 2048, 1024, 512, 512, 512, 256, 256, 256, 256, 256, 256, 256, 256, 256, 256, 256],
        vec![1, 4, 8, 32, 16, 512, 128, 4096, 128, 1024, 32, 16, 16, 128, 64, 512, 64, 128, 8, 4, 4, 16, 8, 16, 8, 4, 4, 4, 4, 4, 4, 4],
        vec![1, 8, 32, 2048, 128, 1024, 256, 32768, 256, 64, 64, 128, 32, 32, 64, 128, 64, 16, 8, 4, 4, 4, 8, 16, 8, 4, 4, 4, 4, 4, 4, 4],
        vec![1, 1, 1, 1, 1, 1, 1, 1, 1, 1, 1, 1, 1, 1, 1, 1, 1, 1, 1, 1, 1, 1, 1, 1, 1, 1, 1, 1, 1, 1, 1, 1],
        vec![1, 1, 1, 1, 1, 1, 1, 1, 1, 1, 1, 1, 1, 1, 1, 1, 1, 1, 1, 1, 1, 1, 1, 1, 1, 1, 1, 1, 1, 1, 1, 1],
        vec![1, 1, 1, 1, 1, 1, 1, 1, 1, 1, 1, 1, 1, 1, 1, 1, 1, 1, 1, 1, 1, 1, 1, 1, 1, 1, 1, 1, 1, 1, 1, 1],
        vec![1, 1, 1, 1, 1, 1, 1, 1, 1, 1, 1, 1, 1, 1, 1, 1, 1, 1, 1, 1, 1, 1, 1, 1, 1, 1, 1, 1, 1, 1, 1, 1],
        vec![1, 1, 1, 1, 1, 1, 1, 1, 1, 1, 1, 1, 1, 1, 1, 1, 1, 1, 1, 1, 1, 1, 1, 1, 1, 1, 1, 1, 1, 1, 1, 1]
    ];
    proof {
        assert forall|a: int, sp: int| 0 <= a < 31 && 0 <= sp < 32 implies #[trigger] (
        classical_gens@[a]@[sp] as int) == spec_classical_table()[a][sp] by {
            assert(classical_gens@.map_values(|row: Vec<i32>| row@.map_values(|v: i32| v as int))
                =~~= spec_classical_table());
        }
        assert forall|a: int, sp: int| 0 <= a < 31 && 0 <= sp < 32 implies #[trigger] (
        spec_classical_table()[a][sp]) >= 1 by {
            assert(classical_gens@[a]@[sp] as int == spec_classical_table()[a][sp]);
        }
    }
    let mut issues: Vec<CheckIssue> = Vec::new();
    let mut sphere: i32 = MAX_VERIFY_SPHERE;
    while sphere >= 1
        invariant
            data.torsion_wf(),
            sphere <= MAX_VERIFY_SPHERE,
            classical_max_stem == 30,
            classical_gens@.len() == 31,
            forall|k: int| 0 <= k < 31 ==> (#[trigger] classical_gens@[k])@.len() == 32,
            forall|a: int, sp: int|
                0 <= a < 31 && 0 <= sp < 32 ==> #[trigger] (classical_gens@[a]@[sp] as int)
                    == spec_classical_table()[a][sp],
            forall|a: int, sp: int|
                0 <= a < 31 && 0 <= sp < 32 ==> (#[trigger] classical_gens@[a]@[sp]) >= 1,
            issues@.len() == 0 ==> forall|sp: int, a: int|
                sphere < sp <= MAX_VERIFY_SPHERE && 0 <= a <= MAX_VERIFY_STEM
                    ==> spec_count_free(spec_classical_finals(*data, sp as i32), a as i32)
                    == spec_two_adic(#[trigger] spec_classical_table()[a][sp - 1] as nat),
            issues@.len() > 0 ==> !spec_classical_ok(*data),
        decreases sphere,
    {
        let (pages, _diags) = get_filtered_data(
            data,
            Category::Classical,
            1,
            sphere + 1,
            1000,
            None,
        );
        let finals = pages.get_final_page();
        let ghost fm = finals@.map_values(|f: FinalRow| f@);
        proof {
            assert(fm == spec_classical_finals(*data, sphere));
        }
        let mut conv: Vec<i128> = Vec::new();
        let mut z: usize = 0;
        while z < 31
            invariant
                0 <= z <= 31,
                conv@.len() == z,
                forall|q: int| 0 <= q < z ==> #[trigger] conv@[q] == 0,
            decreases 31 - z,
        {
            conv.push(0);
            z = z + 1;
        }
        proof {
            assert forall|a: int| 0 <= a <= 30 implies #[trigger] conv@[a] == spec_count_free(
                fm.take(0),
                a as i32,
            ) by {
                assert(fm.take(0).len() == 0);
            }
        }
        let fln = finals.len();
        let mut f: usize = 0;
        while f < fln
            invariant
                fln == finals@.len(),
                0 <= f <= fln,
                fm == finals@.map_values(|ff: FinalRow| ff@),
                conv@.len() == 31,
                classical_max_stem == 30,
                forall|a: int|
                    0 <= a <= 30 ==> #[trigger] conv@[a] == spec_count_free(
                        fm.take(f as int),
                        a as i32,
                    ),
                forall|a: int| 0 <= a <= 30 ==> 0 <= #[trigger] conv@[a] <= f,
            decreases fln - f,
        {
            let g = &finals[f];
            proof {
                assert(fm[f as int] == finals@[f as int]@);
                assert(fm.take(f + 1).drop_last() =~= fm.take(f as int));
                assert(fm.take(f + 1).last() == fm[f as int]);
            }
            if g.torsion.is_free() && 0 <= g.x && g.x <= classical_max_stem {
                let xi = g.x as usize;
                let c = conv[xi];
                conv.set(xi, c + 1);
            }
            proof {
                assert forall|a: int| 0 <= a <= 30 implies #[trigger] conv@[a]
                    == spec_count_free(fm.take(f + 1), a as i32) by {
                    assert(spec_count_free(fm.take(f + 1), a as i32) == spec_count_free(
                        fm.take(f as int),
                        a as i32,
                    ) + if fm[f as int].x == a as i32 && fm[f as int].torsion == Torsion::Free {
                        1int
                    } else {
                        0int
                    });
                }
            }
            f = f + 1;
        }
        proof {
            assert(fm.take(fln as int) =~= fm);
        }
        let mut a: i32 = 0;
        while a <= MAX_VERIFY_STEM
            invariant
                0 <= a <= MAX_VERIFY_STEM + 1,
                conv@.len() == 31,
                classical_gens@.len() == 31,
                forall|k: int| 0 <= k < 31 ==> (#[trigger] classical_gens@[k])@.len() == 32,
                forall|aa: int, sp: int|
                    0 <= aa < 31 && 0 <= sp < 32 ==> #[trigger] (classical_gens@[aa]@[
                        sp
                    ] as int) == spec_classical_table()[aa][sp],
                forall|aa: int, sp: int|
                    0 <= aa < 31 && 0 <= sp < 32 ==> (#[trigger] classical_gens@[aa]@[sp]) >= 1,
                1 <= sphere <= MAX_VERIFY_SPHERE,
                fm == spec_classical_finals(*data, sphere),
                forall|aa: int|
                    0 <= aa <= 30 ==> #[trigger] conv@[aa] == spec_count_free(fm, aa as i32),
                issues@.len() == 0 ==> forall|sp: int, aa: int|
                    sphere < sp <= MAX_VERIFY_SPHERE && 0 <= aa <= MAX_VERIFY_STEM
                        ==> spec_count_free(spec_classical_finals(*data, sp as i32), aa as i32)
                        == spec_two_adic(#[trigger] spec_classical_table()[aa][sp - 1] as nat),
                issues@.len() == 0 ==> forall|aa: int|
                    0 <= aa < a ==> spec_count_free(fm, aa as i32) == spec_two_adic(
                        #[trigger] spec_classical_table()[aa][sphere - 1] as nat,
                    ),
                issues@.len() > 0 ==> !spec_classical_ok(*data),
            decreases MAX_VERIFY_STEM + 1 - a,
        {
            let order = classical_gens[a as usize][(sphere - 1) as usize];
            let expected = two_adic(order as u32);
            proof {
                assert(classical_gens@[a as int]@[sphere - 1] as int == spec_classical_table()[
                    a as int
                ][sphere - 1]);
            }
            if conv[a as usize] != expected as i128 {
                issues.push(
                    CheckIssue::ClassicalCount {
                        sphere,
                        stem: a,
                        expected,
                        got: conv[a as usize],
                    },
                );
                proof {
                    assert(spec_count_free(fm, a) != spec_two_adic(
                        spec_classical_table()[a as int][sphere - 1] as nat,
                    ));
                    assert(!spec_classical_ok(*data));
                }
            }
            a = a + 1;
        }
        sphere = sphere - 1;
    }
    let ok = issues.len() == 0;
    proof {
        if issues@.len() == 0 {
            assert(spec_classical_ok(*data));
        }
    }
    (ok, issues)
}

/// Index of the first final-page row that carries `name`, or -1.
pub open spec fn fin_index(finals: Seq<crate::processor::FinalRowModel>, name: Seq<char>) -> int
    decreases finals.len(),
{
    if finals.len() == 0 {
        -1
    } else if finals[0].name == name {
        0
    } else {
        let r = fin_index(finals.drop_first(), name);
        if r < 0 {
            -1
        } else {
            r + 1
        }
    }
}

/// What the first-row index means position by position.
pub proof fn lemma_fin_index(finals: Seq<crate::processor::FinalRowModel>, name: Seq<char>)
    ensures
        fin_index(finals, name) == -1 ==> forall|k: int|
            0 <= k < finals.len() ==> (#[trigger] finals[k]).name != name,
        fin_index(finals, name) >= 0 ==> {
            let r = fin_index(finals, name);
            &&& r < finals.len()
            &&& finals[r].name == name
            &&& forall|k: int| 0 <= k < r ==> (#[trigger] finals[k]).name != name
        },
    decreases finals.len(),
{
    if finals.len() > 0 && finals[0].name != name {
        let rest = finals.drop_first();
        lemma_fin_index(rest, name);
        let r = fin_index(finals, name);
        if r == -1 {
            assert forall|k: int| 0 <= k < finals.len() implies (#[trigger] finals[k]).name
                != name by {
                if k > 0 {
                    assert(rest[k - 1] == finals[k]);
                }
            }
        } else {
            assert(finals[r] == rest[r - 1]);
            assert forall|k: int| 0 <= k < r implies (#[trigger] finals[k]).name != name by {
                if k > 0 {
                    assert(rest[k - 1] == finals[k]);
                }
            }
        }
    }
}

fn find_final(finals: &Vec<FinalRow>, name: &String) -> (r: Option<(Torsion, i32)>)
    ensures
        ({
            let fm = finals@.map_values(|f: FinalRow| f@);
            match r {
                Some(v) => fin_index(fm, name@) >= 0 && v == (
                    fm[fin_index(fm, name@)].torsion,
                    fm[fin_index(fm, name@)].filtration,
                ),
                None => fin_index(fm, name@) == -1,
            }
        }),
{
    let ghost fm = finals@.map_values(|f: FinalRow| f@);
    proof {
        lemma_fin_index(fm, name@);
    }
    let n = finals.len();
    let mut i: usize = 0;
    while i < n
        invariant
            n == finals@.len(),
            fm == finals@.map_values(|f: FinalRow| f@),
            0 <= i <= n,
            forall|k: int| 0 <= k < i ==> (#[trigger] fm[k]).name != name@,
        decreases n - i,
    {
        proof {
            assert(fm[i as int] == finals@[i as int]@);
        }
        if finals[i].name == *name {
            proof {
                lemma_fin_index(fm, name@);
            }
            return Some((finals[i].torsion, finals[i].filtration));
        }
        i = i + 1;
    }
    proof {
        lemma_fin_index(fm, name@);
    }
    None
}

/// The replayed final page of one sequence at one page.
pub open spec fn spec_seq_finals(data: SyntheticEHP, page: i32) -> Seq<
    crate::processor::FinalRowModel,
> {
    crate::processor::spec_final_rows(
        crate::processor::spec_filtered(data, Category::Synthetic, 1, 1000, page, None).0,
    )
}

/// Whether the torsion on the far side of the structural map is
/// compatible with the near side: it may only have shrunk.
pub open spec fn spec_map_compat(near: Torsion, far: Torsion) -> bool {
    match near {
        Torsion::Val(e_t) => e_t == 0 || match far {
            Torsion::Val(a_t) => a_t <= e_t,
            Torsion::Free => false,
            Torsion::Zero => true,
        },
        _ => true,
    }
}

/// Whether one differential of the first sequence is compatible with the
/// second sequence on one page: the torsions of its endpoints may only
/// shrink across the map, and wherever both endpoints survive, a lifted
/// differential with the same coefficient must exist whenever a valid
/// target remains.
pub open spec fn spec_ehp_diff_ok(
    ehp: SyntheticEHP,
    ahss: SyntheticEHP,
    page: i32,
    k: int,
) -> bool {
    let d = ehp.differentials@[k];
    let gi = gen_index(ehp.generators@, d.from@);
    if d.d != page {
        true
    } else if !(gi >= 0 && ehp.generators@[gi].x <= MAX_VERIFY_STEM) {
        true
    } else {
        let ef = spec_seq_finals(ehp, page);
        let af = spec_seq_finals(ahss, page);
        let ei_f = fin_index(ef, d.from@);
        let ei_t = fin_index(ef, d.to@);
        if !(ei_f >= 0 && ei_t >= 0) {
            true
        } else {
            let ai_f = fin_index(af, d.from@);
            let ai_t = fin_index(af, d.to@);
            let c1 = ai_f >= 0 ==> spec_map_compat(ef[ei_f].torsion, af[ai_f].torsion);
            let c2 = ai_t >= 0 ==> spec_map_compat(ef[ei_t].torsion, af[ai_t].torsion);
            let c3 = (ai_f >= 0 && ai_t >= 0) ==> {
                let found = exists|q: int|
                    0 <= q < ahss.differentials@.len() && (#[trigger] ahss.differentials@[q]).d
                        == page && ahss.differentials@[q].from@ == d.from@
                        && ahss.differentials@[q].to@ == d.to@;
                let coeff_ok = forall|q: int|
                    0 <= q < ahss.differentials@.len() && (#[trigger] ahss.differentials@[q]).d
                        == page && ahss.differentials@[q].from@ == d.from@
                        && ahss.differentials@[q].to@ == d.to@
                        ==> ahss.differentials@[q].coeff == d.coeff;
                &&& (found ==> coeff_ok)
                &&& (!found && af[ai_f].torsion != Torsion::Zero && af[ai_t].torsion
                    != Torsion::Zero ==> match af[ai_t].torsion {
                    Torsion::Val(a_to_t) => !(a_to_t > d.coeff),
                    Torsion::Free => false,
                    Torsion::Zero => true,
                })
            };
            c1 && c2 && c3
        }
    }
}

/// Whether the first sequence maps compatibly into the second: shared
/// generators agree on filtration, and every firing differential is
/// compatible on every tracked page.
pub open spec fn spec_ehp_ok(ehp: SyntheticEHP, ahss: SyntheticEHP) -> bool {
    &&& forall|i: int|
        0 <= i < ehp.generators@.len() && (#[trigger] ehp.generators@[i]).x <= MAX_VERIFY_STEM
            ==> {
            let gi = gen_index(ahss.generators@, ehp.generators@[i].name@);
            gi >= 0 ==> ahss.generators@[gi].adams_filtration == ehp.generators@[
                i
            ].adams_filtration
        }
    &&& forall|page: int, k: int|
        1 <= page <= MAX_VERIFY_STEM && 0 <= k < ehp.differentials@.len()
            ==> #[trigger] spec_ehp_diff_ok(ehp, ahss, page as i32, k)
}

/// A failing differential on one tracked page refutes the whole
/// comparison.
proof fn lemma_ehp_witness(ehp: SyntheticEHP, ahss: SyntheticEHP, page: i32, k: int)
    requires
        1 <= page <= MAX_VERIFY_STEM,
        0 <= k < ehp.differentials@.len(),
        !spec_ehp_diff_ok(ehp, ahss, page, k),
    ensures
        !spec_ehp_ok(ehp, ahss),
{
    if spec_ehp_ok(ehp, ahss) {
        assert(spec_ehp_diff_ok(ehp, ahss, (page as int) as i32, k));
        assert((page as int) as i32 == page);
    }
}

/// Hold one sequence's replay against another's, page by page: shared
/// generators must agree on their filtration, torsion may only shrink
/// across the structural map, and a differential of the first sequence
/// must have a matching lift in the second wherever a valid target
/// survives.  `r.0` is true exactly when every page is compatible, and
/// exactly when no discrepancy was recorded.
pub fn verify_ehp_to_ahss(ehp: &SyntheticEHP, ahss: &SyntheticEHP) -> (r: (bool, Vec<CheckIssue>))
    requires
        ehp.torsion_wf(),
        ahss.torsion_wf(),
        ehp.index_ok(),
        ahss.index_ok(),
        ehp.names_unique(),
    ensures
        r.0 == spec_ehp_ok(*ehp, *ahss),
        r.0 <==> r.1@.len() == 0,
{
    let mut issues: Vec<CheckIssue> = Vec::new();

    // shared generators carry the same filtration on both sides
    let ng = ehp.generators.len();
    let mut i: usize = 0;
    while i < ng
        invariant
            ng == ehp.generators@.len(),
            0 <= i <= ng,
            ahss.index_ok(),
            issues@.len() == 0 ==> forall|q: int|
                0 <= q < i && (#[trigger] ehp.generators@[q]).x <= MAX_VERIFY_STEM ==> {
                    let gi = gen_index(ahss.generators@, ehp.generators@[q].name@);
                    gi >= 0 ==> ahss.generators@[gi].adams_filtration == ehp.generators@[
                        q
                    ].adams_filtration
                },
            issues@.len() > 0 ==> !spec_ehp_ok(*ehp, *ahss),
        decreases ng - i,
    {
        let g = &ehp.generators[i];
        if g.x <= MAX_VERIFY_STEM {
            proof {
                lemma_gen_index(ahss.generators@, g.name@);
            }
            match scan_gen(ahss, &g.name) {
                Some(gi) => {
                    proof {
                        lemma_gen_index(ahss.generators@, g.name@);
                    }
                    if ahss.generators[gi].adams_filtration != g.adams_filtration {
                        issues.push(
                            CheckIssue::FromTorsionIncompatible {
                                from: g.name.clone(),
                                to: g.name.clone(),
                            },
                        );
                        proof {
                            assert(!spec_ehp_ok(*ehp, *ahss));
                        }
                    }
                },
                None => {},
            }
        }
        i = i + 1;
    }

    // page by page, every firing differential must be compatible
    let mut page: i32 = 1;
    while page <= MAX_VERIFY_STEM
        invariant
            1 <= page <= MAX_VERIFY_STEM + 1,
            ehp.torsion_wf(),
            ahss.torsion_wf(),
            ehp.index_ok(),
            ahss.index_ok(),
            issues@.len() == 0 ==> forall|q: int|
                0 <= q < ehp.generators@.len() && (#[trigger] ehp.generators@[q]).x
                    <= MAX_VERIFY_STEM ==> {
                    let gi = gen_index(ahss.generators@, ehp.generators@[q].name@);
                    gi >= 0 ==> ahss.generators@[gi].adams_filtration == ehp.generators@[
                        q
                    ].adams_filtration
                },
            issues@.len() == 0 ==> forall|p: int, k: int|
                1 <= p < page && 0 <= k < ehp.differentials@.len() ==> #[trigger] spec_ehp_diff_ok(
                    *ehp,
                    *ahss,
                    p as i32,
                    k,
                ),
            ehp.names_unique(),
            issues@.len() > 0 ==> !spec_ehp_ok(*ehp, *ahss),
        decreases MAX_VERIFY_STEM + 1 - page,
    {
        let (ehp_pages, _d1) = get_filtered_data(ehp, Category::Synthetic, 1, 1000, page, None);
        let ehp_finals = ehp_pages.get_final_page();
        let ghost efm = ehp_finals@.map_values(|f: FinalRow| f@);
        let (ahss_pages, _d2) = get_filtered_data(ahss, Category::Synthetic, 1, 1000, page, None);
        let ahss_finals = ahss_pages.get_final_page();
        let ghost afm = ahss_finals@.map_values(|f: FinalRow| f@);
        proof {
            assert(efm == spec_seq_finals(*ehp, page));
            assert(afm == spec_seq_finals(*ahss, page));
        }

        let nd = ehp.differentials.len();
        let mut k: usize = 0;
        while k < nd
            invariant
                nd == ehp.differentials@.len(),
                0 <= k <= nd,
                1 <= page <= MAX_VERIFY_STEM,
                ehp.index_ok(),
                efm == spec_seq_finals(*ehp, page),
                afm == spec_seq_finals(*ahss, page),
                efm == ehp_finals@.map_values(|f: FinalRow| f@),
                afm == ahss_finals@.map_values(|f: FinalRow| f@),
                issues@.len() == 0 ==> forall|p: int, kk: int|
                    1 <= p < page && 0 <= kk < ehp.differentials@.len()
                        ==> #[trigger] spec_ehp_diff_ok(*ehp, *ahss, p as i32, kk),
                issues@.len() == 0 ==> forall|kk: int|
                    0 <= kk < k ==> #[trigger] spec_ehp_diff_ok(*ehp, *ahss, page, kk),
                issues@.len() == 0 ==> forall|q: int|
                    0 <= q < ehp.generators@.len() && (#[trigger] ehp.generators@[q]).x
                        <= MAX_VERIFY_STEM ==> {
                        let gi = gen_index(ahss.generators@, ehp.generators@[q].name@);
                        gi >= 0 ==> ahss.generators@[gi].adams_filtration == ehp.generators@[
                            q
                        ].adams_filtration
                    },
                ehp.names_unique(),
                issues@.len() > 0 ==> !spec_ehp_ok(*ehp, *ahss),
            decreases nd - k,
        {
            let d = &ehp.differentials[k];
            if d.d == page {
                let in_range = match ehp.find(&d.from) {
                    Some(g) => {
                        proof {
                            lemma_gen_index(ehp.generators@, d.from@);
                            let gi = gen_index(ehp.generators@, d.from@);
                            let w = choose|w: int|
                                0 <= w < ehp.generators@.len()
                                    && #[trigger] ehp.generators@[w].name@ == d.from@ && *g
                                    == ehp.generators@[w];
                            if gi != w {
                                if gi < w {
                                    assert(ehp.generators@[gi].name@ != ehp.generators@[
                                        w
                                    ].name@);
                                } else {
                                    assert(ehp.generators@[w].name@ != ehp.generators@[
                                        gi
                                    ].name@);
                                }
                            }
                            assert(*g == ehp.generators@[gi]);
                        }
                        g.x <= MAX_VERIFY_STEM
                    },
                    None => {
                        proof {
                            lemma_gen_index(ehp.generators@, d.from@);
                        }
                        false
                    },
                };
                proof {
                    lemma_gen_index(ehp.generators@, d.from@);
                    let gi = gen_index(ehp.generators@, d.from@);
                    assert(in_range == (gi >= 0 && ehp.generators@[gi].x <= MAX_VERIFY_STEM));
                }
                let e_from = find_final(&ehp_finals, &d.from);
                let e_to = find_final(&ehp_finals, &d.to);
                if in_range && e_from.is_some() && e_to.is_some() {
                    let e_from = e_from.unwrap();
                    let e_to = e_to.unwrap();
                    let a_from = find_final(&ahss_finals, &d.from);
                    let a_to = find_final(&ahss_finals, &d.to);

                    // the source of the map may only lose torsion
                    match (e_from.0, a_from) {
                        (Torsion::Val(e_t), Some(af)) => {
                            if e_t != 0 {
                                match af.0 {
                                    Torsion::Val(a_t) => {
                                        if a_t > e_t {
                                            issues.push(
                                                CheckIssue::FromTorsionIncompatible {
                                                    from: d.from.clone(),
                                                    to: d.to.clone(),
                                                },
                                            );
                                            proof {
                                                let dd = ehp.differentials@[k as int];
                                                assert(dd.d == page);
                                                let gi = gen_index(
                                                    ehp.generators@,
                                                    dd.from@,
                                                );
                                                assert(gi >= 0 && ehp.generators@[gi].x
                                                    <= MAX_VERIFY_STEM);
                                                let ei_f = fin_index(efm, dd.from@);
                                                let ei_t = fin_index(efm, dd.to@);
                                                assert(ei_f >= 0 && ei_t >= 0);
                                                let ai_f = fin_index(afm, dd.from@);
                                                assert(ai_f >= 0);
                                                assert(efm[ei_f].torsion == Torsion::Val(e_t));
                                                assert(afm[ai_f].torsion == Torsion::Val(a_t));
                                                assert(!spec_map_compat(
                                                    efm[ei_f].torsion,
                                                    afm[ai_f].torsion,
                                                ));
                                                assert(!spec_ehp_diff_ok(
                                                    *ehp,
                                                    *ahss,
                                                    page,
                                                    k as int,
                                                ));
                                                lemma_ehp_witness(*ehp, *ahss, page, k as int);
                                            }
                                        }
                                    },
                                    Torsion::Free => {
                                        issues.push(
                                            CheckIssue::FromTorsionIncompatible {
                                                from: d.from.clone(),
                                                to: d.to.clone(),
                                            },
                                        );
                                        proof {
                                            assert(!spec_ehp_diff_ok(*ehp, *ahss, page, k as int));
                                            lemma_ehp_witness(*ehp, *ahss, page, k as int);
                                        }
                                    },
                                    Torsion::Zero => {},
                                }
                            }
                        },
                        _ => {},
                    }
                    // and so may the target
                    match (e_to.0, a_to) {
                        (Torsion::Val(e_t), Some(at)) => {
                            if e_t != 0 {
                                match at.0 {
                                    Torsion::Val(a_t) => {
                                        if a_t > e_t {
                                            issues.push(
                                                CheckIssue::ToTorsionIncompatible {
                                                    from: d.from.clone(),
                                                    to: d.to.clone(),
                                                },
                                            );
                                            proof {
                                                assert(!spec_ehp_diff_ok(
                                                    *ehp,
                                                    *ahss,
                                                    page,
                                                    k as int,
                                                ));
                                                lemma_ehp_witness(*ehp, *ahss, page, k as int);
                                            }
                                        }
                                    },
                                    Torsion::Free => {
                                        issues.push(
                                            CheckIssue::ToTorsionIncompatible {
                                                from: d.from.clone(),
                                                to: d.to.clone(),
                                            },
                                        );
                                        proof {
                                            assert(!spec_ehp_diff_ok(*ehp, *ahss, page, k as int));
                                            lemma_ehp_witness(*ehp, *ahss, page, k as int);
                                        }
                                    },
                                    Torsion::Zero => {},
                                }
                            }
                        },
                        _ => {},
                    }

                    // wherever both endpoints survive, a lifted
                    // differential must exist and agree
                    match (a_from, a_to) {
                        (Some(af), Some(at)) => {
                            let mut found = false;
                            let mut coeff_ok = true;
                            let an = ahss.differentials.len();
                            let mut q: usize = 0;
                            while q < an
                                invariant
                                    an == ahss.differentials@.len(),
                                    0 <= q <= an,
                                    nd == ehp.differentials@.len(),
                                    0 <= k < nd,
                                    1 <= page <= MAX_VERIFY_STEM,
                                    found <==> exists|qq: int|
                                        0 <= qq < q && (#[trigger] ahss.differentials@[qq]).d
                                            == page && ahss.differentials@[qq].from@
                                            == ehp.differentials@[k as int].from@
                                            && ahss.differentials@[qq].to@
                                            == ehp.differentials@[k as int].to@,
                                    coeff_ok <==> forall|qq: int|
                                        0 <= qq < q && (#[trigger] ahss.differentials@[qq]).d
                                            == page && ahss.differentials@[qq].from@
                                            == ehp.differentials@[k as int].from@
                                            && ahss.differentials@[qq].to@
                                            == ehp.differentials@[k as int].to@
                                            ==> ahss.differentials@[qq].coeff
                                            == ehp.differentials@[k as int].coeff,
                                decreases an - q,
                            {
                                let ad = &ahss.differentials[q];
                                if ad.d == page && ad.from == ehp.differentials[k].from
                                    && ad.to == ehp.differentials[k].to {
                                    found = true;
                                    if ad.coeff != ehp.differentials[k].coeff {
                                        coeff_ok = false;
                                    }
                                }
                                q = q + 1;
                            }
                            if found && !coeff_ok {
                                issues.push(
                                    CheckIssue::CoeffMismatch {
                                        from: d.from.clone(),
                                        to: d.to.clone(),
                                    },
                                );
                                proof {
                                    assert(!spec_ehp_diff_ok(*ehp, *ahss, page, k as int));
                                    lemma_ehp_witness(*ehp, *ahss, page, k as int);
                                }
                            }
                            if !found && !af.0.is_zero() && !at.0.is_zero() {
                                let complain = match at.0 {
                                    Torsion::Val(a_to_t) => a_to_t > d.coeff,
                                    Torsion::Free => true,
                                    Torsion::Zero => false,
                                };
                                if complain {
                                    issues.push(
                                        CheckIssue::MissingLiftedDifferential {
                                            from: d.from.clone(),
                                            to: d.to.clone(),
                                        },
                                    );
                                    proof {
                                        assert(!spec_ehp_diff_ok(*ehp, *ahss, page, k as int));
                                        lemma_ehp_witness(*ehp, *ahss, page, k as int);
                                    }
                                }
                            }
                        },
                        _ => {},
                    }
                }
            }
            proof {
                if issues@.len() == 0 {
                    assert(spec_ehp_diff_ok(*ehp, *ahss, page, k as int));
                }
            }
            k = k + 1;
        }
        page = page + 1;
    }
    let ok = issues.len() == 0;
    proof {
        if issues@.len() == 0 {
            assert(spec_ehp_ok(*ehp, *ahss));
        }
    }
    (ok, issues)
}


/// The values of a name-translation list.
pub open spec fn rn_view(v: Seq<(String, String)>) -> Seq<(Seq<char>, Seq<char>)> {
    v.map_values(|p: (String, String)| (p.0@, p.1@))
}

/// Index of the first translation of a name, or -1.
pub open spec fn rn_index(rnv: Seq<(Seq<char>, Seq<char>)>, name: Seq<char>) -> int
    decreases rnv.len(),
{
    if rnv.len() == 0 {
        -1
    } else if rnv[0].0 == name {
        0
    } else {
        let r = rn_index(rnv.drop_first(), name);
        if r < 0 {
            -1
        } else {
            r + 1
        }
    }
}

/// What the first-translation index means position by position.
pub proof fn lemma_rn_index(rnv: Seq<(Seq<char>, Seq<char>)>, name: Seq<char>)
    ensures
        rn_index(rnv, name) == -1 ==> forall|k: int|
            0 <= k < rnv.len() ==> (#[trigger] rnv[k]).0 != name,
        rn_index(rnv, name) >= 0 ==> {
            let r = rn_index(rnv, name);
            &&& r < rnv.len()
            &&& rnv[r].0 == name
            &&& forall|k: int| 0 <= k < r ==> (#[trigger] rnv[k]).0 != name
        },
    decreases rnv.len(),
{
    if rnv.len() > 0 && rnv[0].0 != name {
        let rest = rnv.drop_first();
        lemma_rn_index(rest, name);
        let r = rn_index(rnv, name);
        if r == -1 {
            assert forall|k: int| 0 <= k < rnv.len() implies (#[trigger] rnv[k]).0 != name by {
                if k > 0 {
                    assert(rest[k - 1] == rnv[k]);
                }
            }
        } else {
            assert(rnv[r] == rest[r - 1]);
            assert forall|k: int| 0 <= k < r implies (#[trigger] rnv[k]).0 != name by {
                if k > 0 {
                    assert(rest[k - 1] == rnv[k]);
                }
            }
        }
    }
}

fn lookup_pair<'a>(pairs: &'a Vec<(String, String)>, key: &String) -> (r: Option<&'a String>)
    ensures
        ({
            let rnv = rn_view(pairs@);
            match r {
                Some(v) => rn_index(rnv, key@) >= 0 && v@ == rnv[rn_index(rnv, key@)].1,
                None => rn_index(rnv, key@) == -1,
            }
        }),
{
    let ghost rnv = rn_view(pairs@);
    proof {
        lemma_rn_index(rnv, key@);
    }
    let n = pairs.len();
    let mut i: usize = 0;
    while i < n
        invariant
            n == pairs@.len(),
            rnv == rn_view(pairs@),
            0 <= i <= n,
            forall|k: int| 0 <= k < i ==> (#[trigger] rnv[k]).0 != key@,
        decreases n - i,
    {
        proof {
            assert(rnv[i as int] == (pairs@[i as int].0@, pairs@[i as int].1@));
        }
        if pairs[i].0 == *key {
            proof {
                lemma_rn_index(rnv, key@);
            }
            return Some(&pairs[i].1);
        }
        i = i + 1;
    }
    proof {
        lemma_rn_index(rnv, key@);
    }
    None
}

/// Whether a generator is a recorded row element of row `y`.
pub open spec fn spec_row_elem(g: Generator, y: i32) -> bool {
    g.y == y && g.x <= MAX_VERIFY_STEM && g.x != y && g.torsion != Torsion::Zero
}

/// The final page of one row's window.
pub open spec fn spec_coh_finals(data: SyntheticEHP, y: i32) -> Seq<
    crate::processor::FinalRowModel,
> {
    crate::processor::spec_final_rows(
        crate::processor::spec_filtered(data, Category::Synthetic, 1, (y + 1) as i32, 1000, None).0,
    )
}

/// The converged survivors of one row's window, keyed by induced name.
pub open spec fn spec_conv(
    data: SyntheticEHP,
    finals: Seq<crate::processor::FinalRowModel>,
    upto: int,
    y: i32,
) -> Seq<(Seq<char>, Torsion, i32)>
    decreases upto,
{
    if upto <= 0 {
        Seq::empty()
    } else {
        let rest = spec_conv(data, finals, upto - 1, y);
        let r = finals[upto - 1];
        let gi = gen_index(data.generators@, r.name);
        if 0 < r.x && r.x <= MAX_VERIFY_STEM - y && r.torsion != Torsion::Zero && gi >= 0 {
            rest.push((data.generators@[gi].induced_name@, r.torsion, r.filtration))
        } else {
            rest
        }
    }
}

/// Index of the first converged entry under a row name, or -1.
pub open spec fn cv_index(conv: Seq<(Seq<char>, Torsion, i32)>, name: Seq<char>) -> int
    decreases conv.len(),
{
    if conv.len() == 0 {
        -1
    } else if conv[0].0 == name {
        0
    } else {
        let r = cv_index(conv.drop_first(), name);
        if r < 0 {
            -1
        } else {
            r + 1
        }
    }
}

/// What the first-entry index means position by position.
pub proof fn lemma_cv_index(conv: Seq<(Seq<char>, Torsion, i32)>, name: Seq<char>)
    ensures
        cv_index(conv, name) == -1 ==> forall|k: int|
            0 <= k < conv.len() ==> (#[trigger] conv[k]).0 != name,
        cv_index(conv, name) >= 0 ==> {
            let r = cv_index(conv, name);
            &&& r < conv.len()
            &&& conv[r].0 == name
            &&& forall|k: int| 0 <= k < r ==> (#[trigger] conv[k]).0 != name
        },
    decreases conv.len(),
{
    if conv.len() > 0 && conv[0].0 != name {
        let rest = conv.drop_first();
        lemma_cv_index(rest, name);
        let r = cv_index(conv, name);
        if r == -1 {
            assert forall|k: int| 0 <= k < conv.len() implies (#[trigger] conv[k]).0 != name by {
                if k > 0 {
                    assert(rest[k - 1] == conv[k]);
                }
            }
        } else {
            assert(conv[r] == rest[r - 1]);
            assert forall|k: int| 0 <= k < r implies (#[trigger] conv[k]).0 != name by {
                if k > 0 {
                    assert(rest[k - 1] == conv[k]);
                }
            }
        }
    }
}

/// Whether one recorded row element converges with matching state: its
/// translated row name appears among the converged induced names, with
/// the same torsion, one filtration down.
pub open spec fn spec_row_ok(
    rnv: Seq<(Seq<char>, Seq<char>)>,
    conv: Seq<(Seq<char>, Torsion, i32)>,
    g: Generator,
) -> bool {
    let pi = rn_index(rnv, g.name@);
    &&& pi >= 0
    &&& {
        let ci = cv_index(conv, rnv[pi].1);
        &&& ci >= 0
        &&& conv[ci].1 == g.torsion
        &&& conv[ci].2 == g.adams_filtration - 1
    }
}

/// Whether a converged entry is claimed by some recorded row element.
pub open spec fn spec_claimed(
    data: SyntheticEHP,
    rnv: Seq<(Seq<char>, Seq<char>)>,
    name: Seq<char>,
    y: i32,
) -> bool {
    exists|i: int|
        0 <= i < data.generators@.len() && spec_row_elem(#[trigger] data.generators@[i], y) && {
            let pi = rn_index(rnv, data.generators@[i].name@);
            pi >= 0 && rnv[pi].1 == name
        }
}

/// Whether every row of the store coheres with its own sphere's
/// convergence under the given translations.
pub open spec fn spec_coherence_ok(data: SyntheticEHP, rnv: Seq<(Seq<char>, Seq<char>)>) -> bool {
    forall|y: int|
        #![trigger spec_coh_finals(data, y as i32)]
        1 <= y <= MAX_VERIFY_STEM ==> {
            let finals = spec_coh_finals(data, y as i32);
            let conv = spec_conv(data, finals, finals.len() as int, y as i32);
            &&& forall|i: int|
                0 <= i < data.generators@.len() && spec_row_elem(
                    #[trigger] data.generators@[i],
                    y as i32,
                ) ==> spec_row_ok(rnv, conv, data.generators@[i])
            &&& forall|c: int|
                0 <= c < conv.len() ==> spec_claimed(data, rnv, (#[trigger] conv[c]).0, y as i32)
        }
}

/// Hold each recorded row of the store against the convergence of its
/// own sphere's replay: a generator of row `y`, translated to its row
/// name by the externally produced `row_names` map, must reappear among
/// the converged survivors under its induced name, with the same torsion
/// and a filtration one below its recorded one — and nothing else may
/// survive.  `r.0` is true exactly when every row coheres, and exactly
/// when no discrepancy was recorded.
pub fn verify_self_coherence(data: &SyntheticEHP, row_names: &Vec<(String, String)>) -> (r: (
    bool,
    Vec<CheckIssue>,
))
    requires
        data.torsion_wf(),
        data.index_ok(),
        data.names_unique(),
    ensures
        r.0 == spec_coherence_ok(*data, rn_view(row_names@)),
        r.0 <==> r.1@.len() == 0,
{
    let ghost rnv = rn_view(row_names@);
    let mut issues: Vec<CheckIssue> = Vec::new();
    let mut y: i32 = 1;
    while y <= MAX_VERIFY_STEM
        invariant
            1 <= y <= MAX_VERIFY_STEM + 1,
            data.torsion_wf(),
            data.index_ok(),
            data.names_unique(),
            rnv == rn_view(row_names@),
            issues@.len() == 0 ==> forall|yy: int|
                #![trigger spec_coh_finals(*data, yy as i32)]
                1 <= yy < y ==> {
                    let finals = spec_coh_finals(*data, yy as i32);
                    let conv = spec_conv(*data, finals, finals.len() as int, yy as i32);
                    &&& forall|i: int|
                        0 <= i < data.generators@.len() && spec_row_elem(
                            #[trigger] data.generators@[i],
                            yy as i32,
                        ) ==> spec_row_ok(rnv, conv, data.generators@[i])
                    &&& forall|c: int|
                        0 <= c < conv.len() ==> spec_claimed(
                            *data,
                            rnv,
                            (#[trigger] conv[c]).0,
                            yy as i32,
                        )
                },
            issues@.len() > 0 ==> !spec_coherence_ok(*data, rnv),
        decreases MAX_VERIFY_STEM + 1 - y,
    {
        let sphere = y * 2 + 1;
        let (pages, _diags) = get_filtered_data(data, Category::Synthetic, 1, y + 1, 1000, None);
        let finals = pages.get_final_page();
        let ghost fm = finals@.map_values(|f: FinalRow| f@);
        proof {
            assert(fm == spec_coh_finals(*data, y));
        }

        // the converged survivors of the window, keyed by induced name
        let mut conv: Vec<(String, Torsion, i32)> = Vec::new();
        let ghost cm = spec_conv(*data, fm, fm.len() as int, y);
        let fln = finals.len();
        let mut f: usize = 0;
        proof {
            assert(conv@.map_values(|p: (String, Torsion, i32)| (p.0@, p.1, p.2)) =~~= spec_conv(
                *data,
                fm,
                0,
                y,
            ));
        }
        while f < fln
            invariant
                fln == finals@.len(),
                0 <= f <= fln,
                data.index_ok(),
                data.names_unique(),
                1 <= y <= MAX_VERIFY_STEM,
                fm == finals@.map_values(|ff: FinalRow| ff@),
                conv@.map_values(|p: (String, Torsion, i32)| (p.0@, p.1, p.2)) == spec_conv(
                    *data,
                    fm,
                    f as int,
                    y,
                ),
            decreases fln - f,
        {
            let g = &finals[f];
            let ghost before = conv@.map_values(|p: (String, Torsion, i32)| (p.0@, p.1, p.2));
            proof {
                assert(fm[f as int] == finals@[f as int]@);
            }
            if 0 < g.x && g.x as i64 <= MAX_VERIFY_STEM as i64 - y as i64 && !g.torsion.is_zero()
            {
                match data.find(&g.name) {
                    Some(stored) => {
                        proof {
                            lemma_gen_index(data.generators@, g.name@);
                            let gi = gen_index(data.generators@, g.name@);
                            let w = choose|w: int|
                                0 <= w < data.generators@.len()
                                    && #[trigger] data.generators@[w].name@ == g.name@ && *stored
                                    == data.generators@[w];
                            if gi != w {
                                if gi < w {
                                    assert(data.generators@[gi].name@ != data.generators@[
                                        w
                                    ].name@);
                                } else {
                                    assert(data.generators@[w].name@ != data.generators@[
                                        gi
                                    ].name@);
                                }
                            }
                            assert(*stored == data.generators@[gi]);
                        }
                        conv.push((stored.induced_name.clone(), g.torsion, g.filtration));
                        proof {
                            assert(conv@.map_values(|p: (String, Torsion, i32)| (p.0@, p.1, p.2))
                                =~~= spec_conv(*data, fm, f as int + 1, y));
                        }
                    },
                    None => {
                        proof {
                            lemma_gen_index(data.generators@, g.name@);
                            if gen_index(data.generators@, g.name@) >= 0 {
                                assert(data.generators@[gen_index(
                                    data.generators@,
                                    g.name@,
                                )].name@ == g.name@);
                            }
                            assert(conv@.map_values(|p: (String, Torsion, i32)| (p.0@, p.1, p.2))
                                =~~= spec_conv(*data, fm, f as int + 1, y));
                        }
                    },
                }
            } else {
                proof {
                    assert(conv@.map_values(|p: (String, Torsion, i32)| (p.0@, p.1, p.2))
                        =~~= spec_conv(*data, fm, f as int + 1, y));
                }
            }
            f = f + 1;
        }
        proof {
            assert(conv@.map_values(|p: (String, Torsion, i32)| (p.0@, p.1, p.2)) == cm);
        }

        // every recorded row element must converge with matching state
        let ng = data.generators.len();
        let mut i: usize = 0;
        while i < ng
            invariant
                ng == data.generators@.len(),
                0 <= i <= ng,
                1 <= y <= MAX_VERIFY_STEM,
                data.index_ok(),
                data.names_unique(),
                rnv == rn_view(row_names@),
                fm == spec_coh_finals(*data, y),
                cm == spec_conv(*data, fm, fm.len() as int, y),
                cm == conv@.map_values(|p: (String, Torsion, i32)| (p.0@, p.1, p.2)),
                issues@.len() == 0 ==> forall|q: int|
                    0 <= q < i && spec_row_elem(#[trigger] data.generators@[q], y)
                        ==> spec_row_ok(rnv, cm, data.generators@[q]),
            issues@.len() == 0 ==> forall|yy: int|
                    #![trigger spec_coh_finals(*data, yy as i32)]
                    1 <= yy < y ==> {
                        let finals = spec_coh_finals(*data, yy as i32);
                        let conv = spec_conv(*data, finals, finals.len() as int, yy as i32);
                        &&& forall|i: int|
                            0 <= i < data.generators@.len() && spec_row_elem(
                                #[trigger] data.generators@[i],
                                yy as i32,
                            ) ==> spec_row_ok(rnv, conv, data.generators@[i])
                        &&& forall|c: int|
                            0 <= c < conv.len() ==> spec_claimed(
                                *data,
                                rnv,
                                (#[trigger] conv[c]).0,
                                yy as i32,
                            )
                    },
                issues@.len() > 0 ==> !spec_coherence_ok(*data, rnv),
            decreases ng - i,
        {
            let g = &data.generators[i];
            if g.y == y && g.x <= MAX_VERIFY_STEM && g.x != y && !(g.torsion == Torsion::Zero) {
                match lookup_pair(row_names, &g.name) {
                    Some(row_name) => {
                        let mut found = false;
                        let cn = conv.len();
                        let mut c: usize = 0;
                        proof {
                            lemma_cv_index(cm, row_name@);
                        }
                        while c < cn
                            invariant_except_break
                                cn == conv@.len(),
                                0 <= c <= cn,
                                !found,
                                cm == conv@.map_values(
                                    |p: (String, Torsion, i32)| (p.0@, p.1, p.2),
                                ),
                                cm.len() == cn,
                                cv_index(cm, row_name@) < cm.len(),
                                cv_index(cm, row_name@) == -1 || c as int <= cv_index(
                                    cm,
                                    row_name@,
                                ),
                                forall|k: int| 0 <= k < c ==> (#[trigger] cm[k]).0 != row_name@,
                            ensures
                                cm == conv@.map_values(
                                    |p: (String, Torsion, i32)| (p.0@, p.1, p.2),
                                ),
                                found ==> c < cn && c as int == cv_index(cm, row_name@),
                                !found ==> cv_index(cm, row_name@) == -1,
                            decreases cn - c,
                        {
                            proof {
                                assert(cm[c as int] == (conv@[c as int].0@, conv@[c as int].1,
                                conv@[c as int].2));
                            }
                            proof {
                                lemma_cv_index(cm, row_name@);
                            }
                            if conv[c].0 == *row_name {
                                proof {
                                    let r = cv_index(cm, row_name@);
                                    if r < c as int && r >= 0 {
                                        assert(cm[r].0 != row_name@);
                                    }
                                    if r == -1 {
                                        assert(cm[c as int].0 != row_name@);
                                    }
                                    if r > c as int {
                                        assert(cm[c as int].0 != row_name@);
                                    }
                                }
                                found = true;
                                break;
                            }
                            c = c + 1;
                            proof {
                                let r = cv_index(cm, row_name@);
                                if r == c as int - 1 && r >= 0 {
                                    assert(cm[r].0 == row_name@);
                                    assert(false);
                                }
                            }
                        }
                        if !found {
                            issues.push(
                                CheckIssue::RowElementMissing { sphere, name: g.name.clone() },
                            );
                            proof {
                                assert(!spec_row_ok(rnv, cm, data.generators@[i as int]));
                                lemma_coh_witness(*data, rnv, y, i as int);
                            }
                        } else {
                            let same_torsion = conv[c].1 == g.torsion;
                            let same_filtration = conv[c].2 as i64 == g.adams_filtration as i64
                                - 1;
                            proof {
                                assert(cm[c as int] == (conv@[c as int].0@, conv@[c as int].1,
                                conv@[c as int].2));
                            }
                            if !(same_torsion && same_filtration) {
                                issues.push(
                                    CheckIssue::RowElementMismatch {
                                        sphere,
                                        name: g.name.clone(),
                                    },
                                );
                                proof {
                                    assert(!spec_row_ok(rnv, cm, data.generators@[i as int]));
                                    lemma_coh_witness(*data, rnv, y, i as int);
                                }
                            } else {
                                proof {
                                    assert(spec_row_ok(rnv, cm, data.generators@[i as int]));
                                }
                            }
                        }
                    },
                    None => {
                        issues.push(
                            CheckIssue::RowElementMissing { sphere, name: g.name.clone() },
                        );
                        proof {
                            assert(!spec_row_ok(rnv, cm, data.generators@[i as int]));
                            lemma_coh_witness(*data, rnv, y, i as int);
                        }
                    },
                }
            }
            i = i + 1;
        }

        // and nothing may converge that the row does not record
        let cn = conv.len();
        let mut c: usize = 0;
        while c < cn
            invariant
                cn == conv@.len(),
                0 <= c <= cn,
                ng == data.generators@.len(),
                1 <= y <= MAX_VERIFY_STEM,
                data.index_ok(),
                data.names_unique(),
                rnv == rn_view(row_names@),
                fm == spec_coh_finals(*data, y),
                cm == spec_conv(*data, fm, fm.len() as int, y),
                cm == conv@.map_values(|p: (String, Torsion, i32)| (p.0@, p.1, p.2)),
                cm.len() == cn,
                issues@.len() == 0 ==> forall|q: int|
                    0 <= q < ng && spec_row_elem(#[trigger] data.generators@[q], y)
                        ==> spec_row_ok(rnv, cm, data.generators@[q]),
                issues@.len() == 0 ==> forall|cc: int|
                    0 <= cc < c ==> spec_claimed(*data, rnv, (#[trigger] cm[cc]).0, y),
            issues@.len() == 0 ==> forall|yy: int|
                    #![trigger spec_coh_finals(*data, yy as i32)]
                    1 <= yy < y ==> {
                        let finals = spec_coh_finals(*data, yy as i32);
                        let conv = spec_conv(*data, finals, finals.len() as int, yy as i32);
                        &&& forall|i: int|
                            0 <= i < data.generators@.len() && spec_row_elem(
                                #[trigger] data.generators@[i],
                                yy as i32,
                            ) ==> spec_row_ok(rnv, conv, data.generators@[i])
                        &&& forall|c: int|
                            0 <= c < conv.len() ==> spec_claimed(
                                *data,
                                rnv,
                                (#[trigger] conv[c]).0,
                                yy as i32,
                            )
                    },
                issues@.len() > 0 ==> !spec_coherence_ok(*data, rnv),
            decreases cn - c,
        {
            proof {
                assert(cm[c as int] == (conv@[c as int].0@, conv@[c as int].1, conv@[c as int].2));
            }
            let mut claimed = false;
            let mut i2: usize = 0;
            while i2 < ng
                invariant_except_break
                    ng == data.generators@.len(),
                    cn == conv@.len(),
                    0 <= c < cn,
                    0 <= i2 <= ng,
                    !claimed,
                    1 <= y <= MAX_VERIFY_STEM,
                    rnv == rn_view(row_names@),
                    cm == conv@.map_values(|p: (String, Torsion, i32)| (p.0@, p.1, p.2)),
                    cm.len() == cn,
                    forall|q: int|
                        0 <= q < i2 && spec_row_elem(#[trigger] data.generators@[q], y) ==> !(
                        rn_index(rnv, data.generators@[q].name@) >= 0 && rnv[rn_index(
                            rnv,
                            data.generators@[q].name@,
                        )].1 == cm[c as int].0),
                ensures
                    cm == conv@.map_values(|p: (String, Torsion, i32)| (p.0@, p.1, p.2)),
                    claimed ==> spec_claimed(*data, rnv, cm[c as int].0, y),
                    !claimed ==> !spec_claimed(*data, rnv, cm[c as int].0, y),
                decreases ng - i2,
            {
                let g = &data.generators[i2];
                if g.y == y && g.x <= MAX_VERIFY_STEM && g.x != y && !(g.torsion
                    == Torsion::Zero) {
                    match lookup_pair(row_names, &g.name) {
                        Some(row_name) => {
                            proof {
                                assert(cm[c as int] == (conv@[c as int].0@, conv@[c as int].1,
                                conv@[c as int].2));
                            }
                            if conv[c].0 == *row_name {
                                claimed = true;
                                proof {
                                    assert(spec_row_elem(data.generators@[i2 as int], y));
                                    assert(spec_claimed(*data, rnv, cm[c as int].0, y));
                                }
                                break;
                            }
                        },
                        None => {},
                    }
                }
                i2 = i2 + 1;
            }
            if !claimed {
                issues.push(
                    CheckIssue::ConvergedElementMissing { sphere, name: conv[c].0.clone() },
                );
                proof {
                    lemma_coh_witness_conv(*data, rnv, y, c as int);
                }
            }
            c = c + 1;
        }
        proof {
            if issues@.len() == 0 {
                assert forall|yy: int|
                    #![trigger spec_coh_finals(*data, yy as i32)]
                    1 <= yy < y + 1 implies {
                    let finals = spec_coh_finals(*data, yy as i32);
                    let conv2 = spec_conv(*data, finals, finals.len() as int, yy as i32);
                    &&& forall|q: int|
                        0 <= q < data.generators@.len() && spec_row_elem(
                            #[trigger] data.generators@[q],
                            yy as i32,
                        ) ==> spec_row_ok(rnv, conv2, data.generators@[q])
                    &&& forall|cc: int|
                        0 <= cc < conv2.len() ==> spec_claimed(
                            *data,
                            rnv,
                            (#[trigger] conv2[cc]).0,
                            yy as i32,
                        )
                } by {
                    if yy == y as int {
                        assert(yy as i32 == y);
                        assert(spec_coh_finals(*data, yy as i32) == fm);
                        assert(spec_conv(*data, fm, fm.len() as int, yy as i32) == cm);
                    }
                }
            }
        }
        y = y + 1;
    }
    let ok = issues.len() == 0;
    proof {
        if issues@.len() == 0 {
            assert(spec_coherence_ok(*data, rnv));
        }
    }
    (ok, issues)
}

/// A row element that fails to cohere refutes the whole comparison.
proof fn lemma_coh_witness(
    data: SyntheticEHP,
    rnv: Seq<(Seq<char>, Seq<char>)>,
    y: i32,
    i: int,
)
    requires
        1 <= y <= MAX_VERIFY_STEM,
        0 <= i < data.generators@.len(),
        spec_row_elem(data.generators@[i], y),
        !spec_row_ok(
            rnv,
            spec_conv(
                data,
                spec_coh_finals(data, y),
                spec_coh_finals(data, y).len() as int,
                y,
            ),
            data.generators@[i],
        ),
    ensures
        !spec_coherence_ok(data, rnv),
{
    if spec_coherence_ok(data, rnv) {
        let finals = spec_coh_finals(data, (y as int) as i32);
        let conv = spec_conv(data, finals, finals.len() as int, (y as int) as i32);
        assert((y as int) as i32 == y);
        assert(spec_row_ok(rnv, conv, data.generators@[i]));
    }
}

/// An unclaimed converged entry refutes the whole comparison.
proof fn lemma_coh_witness_conv(
    data: SyntheticEHP,
    rnv: Seq<(Seq<char>, Seq<char>)>,
    y: i32,
    c: int,
)
    requires
        1 <= y <= MAX_VERIFY_STEM,
        0 <= c < spec_conv(
            data,
            spec_coh_finals(data, y),
            spec_coh_finals(data, y).len() as int,
            y,
        ).len(),
        !spec_claimed(
            data,
            rnv,
            spec_conv(
                data,
                spec_coh_finals(data, y),
                spec_coh_finals(data, y).len() as int,
                y,
            )[c].0,
            y,
        ),
    ensures
        !spec_coherence_ok(data, rnv),
{
    if spec_coherence_ok(data, rnv) {
        let finals = spec_coh_finals(data, (y as int) as i32);
        let conv = spec_conv(data, finals, finals.len() as int, (y as int) as i32);
        assert((y as int) as i32 == y);
        assert(spec_claimed(data, rnv, conv[c].0, (y as int) as i32));
    }
}

} // verus!