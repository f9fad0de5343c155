use synthetic_ehp::reference::RefEntry;
use synthetic_ehp::solver::{
    diff_sorted, find_issues, fix_in_trunc_stem, DiffSolution, ObsEntry, Solution, TauMultSolution,
};
use synthetic_ehp::types::{Category, Differential, Generator, Kind, SyntheticEHP, Torsion};

fn gen(name: &str, x: i32, y: i32, af: i32, torsion: Torsion) -> Generator {
    let mut g = Generator::new(name.to_string(), x, y, af);
    g.torsion = torsion;
    g
}

fn store(gens: Vec<Generator>, diffs: Vec<Differential>) -> SyntheticEHP {
    let mut data = SyntheticEHP {
        generators: gens,
        differentials: Vec::new(),
        multiplications: Vec::new(),
        find_map: Vec::new(),
    };
    for d in diffs {
        data.insert_diff(d);
    }
    data.build_find_map();
    data
}

fn ref_entry(stem: i32, af: i32, pages: Vec<Torsion>) -> RefEntry {
    RefEntry { stem, af, pages }
}

#[test]
fn surplus_observed_entry_is_one_issue() {
    // a reference entry (stem 20, filtration 5) expecting one page-6
    // differential, held against two observed survivors at the same
    // bidegree, registers exactly one issue with more observed than
    // expected entries
    let data = store(
        vec![
            gen("u", 20, 1, 5, Torsion::Free),
            gen("v", 20, 2, 5, Torsion::Free),
        ],
        vec![],
    );
    let exp = vec![ref_entry(20, 5, vec![Torsion::Val(6)])];
    let issues = find_issues(&data, 0, 5, 20, &exp).unwrap();
    assert_eq!(issues.len(), 1);
    assert_eq!(issues[0].stem, 20);
    assert_eq!(issues[0].af, 5);
    assert!(issues[0].obs.len() > issues[0].exp.len());
    assert_eq!(issues[0].obs.len(), 2);
    assert_eq!(issues[0].exp.len(), 1);
}

#[test]
fn matching_groups_raise_no_issue() {
    let data = store(vec![gen("u", 20, 1, 5, Torsion::Val(6))], vec![]);
    let exp = vec![ref_entry(20, 5, vec![Torsion::Val(6)])];
    let issues = find_issues(&data, 0, 5, 20, &exp).unwrap();
    assert!(issues.is_empty());
}

#[test]
fn missing_expected_bidegree_is_fatal() {
    let data = store(vec![gen("u", 20, 1, 5, Torsion::Free)], vec![]);
    let exp = vec![ref_entry(20, 9, vec![Torsion::Val(6)])];
    assert!(find_issues(&data, 0, 5, 20, &exp).is_err());
}

#[test]
fn lone_diff_candidate_is_applied_and_resolves_the_stem() {
    // a stem where exactly one differential candidate survives
    // disambiguation: after one pass the differential is in the
    // relation set and the bidegree no longer mismatches
    let data_gens = vec![
        gen("t", 20, 1, 3, Torsion::Free),
        gen("s", 21, 5, 1, Torsion::Free),
    ];
    let mut data = store(data_gens, vec![]);
    let exp = vec![ref_entry(20, 3, vec![Torsion::Val(1)])];

    let before = find_issues(&data, 0, 10, 20, &exp).unwrap();
    assert_eq!(before.len(), 1);

    let changed = fix_in_trunc_stem(&mut data, 0, 10, 20, &exp).unwrap();
    assert!(changed);

    let mut found = false;
    for d in &data.differentials {
        if d.from == "s" && d.to == "t" {
            assert_eq!(d.coeff, 1);
            assert_eq!(d.d, 4);
            assert_eq!(d.kind, Kind::Real);
            assert!(d.synthetic);
            found = true;
        }
    }
    assert!(found, "the proposed differential was not inserted");

    let after = find_issues(&data, 0, 10, 20, &exp).unwrap();
    assert!(after.is_empty(), "the bidegree still mismatches: {after:?}");
}

#[test]
fn clean_stem_reports_no_change() {
    let mut data = store(vec![gen("u", 20, 1, 5, Torsion::Val(6))], vec![]);
    let exp = vec![ref_entry(20, 5, vec![Torsion::Val(6)])];
    let changed = fix_in_trunc_stem(&mut data, 0, 5, 20, &exp).unwrap();
    assert!(!changed);
}

#[test]
fn diff_sorted_splits_unmatched_entries() {
    let obs = vec![
        ObsEntry { torsion: Torsion::Free, name: "a".to_string(), y: 1 },
        ObsEntry { torsion: Torsion::Val(2), name: "b".to_string(), y: 1 },
        ObsEntry { torsion: Torsion::Val(5), name: "c".to_string(), y: 1 },
    ];
    let exp = vec![Torsion::Val(2), Torsion::Val(7)];
    let (only_obs, only_exp) = diff_sorted(&obs, &exp);
    assert_eq!(only_obs.len(), 2);
    assert_eq!(only_obs[0].name, "a");
    assert_eq!(only_obs[1].name, "c");
    assert_eq!(only_exp, vec![Torsion::Val(7)]);
}

#[test]
fn shared_endpoints_are_detected() {
    let a = Solution::Diff(DiffSolution {
        from: "x".to_string(),
        to: "y".to_string(),
        coeff: 0,
        d: 1,
    });
    let b = Solution::Tau(TauMultSolution { from: "y".to_string(), to: "z".to_string() });
    let c = Solution::Tau(TauMultSolution { from: "p".to_string(), to: "q".to_string() });
    assert!(a.names_occur_in_both(&b));
    assert!(!a.names_occur_in_both(&c));
}
