use synthetic_ehp::processor::{get_filtered_data, FinalRow, PageSS};
use synthetic_ehp::types::{Category, Differential, Generator, Kind, SyntheticEHP, Torsion};

fn gen(name: &str, x: i32, y: i32, af: i32, torsion: Torsion) -> Generator {
    let mut g = Generator::new(name.to_string(), x, y, af);
    g.torsion = torsion;
    g
}

fn diff(from: &str, to: &str, coeff: i32, d: i32) -> Differential {
    Differential {
        from: from.to_string(),
        to: to.to_string(),
        coeff,
        d,
        kind: Kind::Real,
        synthetic: true,
        justification: None,
    }
}

fn store(gens: Vec<Generator>, diffs: Vec<Differential>) -> SyntheticEHP {
    let mut data = SyntheticEHP {
        generators: gens,
        differentials: Vec::new(),
        multiplications: Vec::new(),
        find_map: Vec::new(),
    };
    for d in diffs {
        data.insert_diff(d);
    }
    data.build_find_map();
    data
}

fn final_by_name(finals: &[FinalRow], name: &str) -> (Torsion, i32) {
    for f in finals {
        if f.name == name {
            return (f.torsion, f.filtration);
        }
    }
    panic!("missing generator {name}");
}

#[test]
fn stable_diff_fires_at_late_page() {
    // generator `[15]` and `5 3[6]`, joined by a differential with
    // d = 9 and coeff = 1: at page 10 the source is exactly-zero and
    // the target carries torsion one
    let data = store(
        vec![
            gen("[15]", 14, 1, 1, Torsion::Free),
            gen("5 3[6]", 17, 1, 3, Torsion::Free),
        ],
        vec![diff("[15]", "5 3[6]", 1, 9)],
    );
    let (pages, diags) = get_filtered_data(&data, Category::Synthetic, 0, 1000, 10, None);
    let finals = pages.get_final_page();
    assert_eq!(final_by_name(&finals, "[15]"), (Torsion::Zero, 1));
    assert_eq!(final_by_name(&finals, "5 3[6]"), (Torsion::Val(1), 3));
    assert!(diags.is_empty());
}

#[test]
fn stable_diff_waits_before_its_page() {
    // the same relation replayed only to page 5 leaves both generators
    // at their original snapshot
    let data = store(
        vec![
            gen("[15]", 14, 1, 1, Torsion::Free),
            gen("5 3[6]", 17, 1, 3, Torsion::Free),
        ],
        vec![diff("[15]", "5 3[6]", 1, 9)],
    );
    let (pages, _) = get_filtered_data(&data, Category::Synthetic, 0, 1000, 5, None);
    let finals = pages.get_final_page();
    assert_eq!(final_by_name(&finals, "[15]"), (Torsion::Free, 1));
    assert_eq!(final_by_name(&finals, "5 3[6]"), (Torsion::Free, 3));
}

#[test]
fn algebraic_replay_never_yields_torsion() {
    // in the algebraic category every generator ends torsion-free or
    // exactly-zero, whatever torsion was recorded
    let data = store(
        vec![
            gen("a", 4, 1, 1, Torsion::Val(2)),
            gen("b", 5, 2, 2, Torsion::Free),
            gen("c", 4, 2, 3, Torsion::Val(1)),
        ],
        vec![Differential {
            from: "b".to_string(),
            to: "a".to_string(),
            coeff: 0,
            d: 1,
            kind: Kind::Real,
            synthetic: false,
            justification: None,
        }],
    );
    let (pages, _) = get_filtered_data(&data, Category::Algebraic, 0, 1000, 1000, None);
    for f in pages.get_final_page() {
        assert!(f.torsion == Torsion::Free || f.torsion == Torsion::Zero);
    }
}

#[test]
fn classical_replay_drops_torsion_generators() {
    let data = store(
        vec![
            gen("a", 4, 1, 1, Torsion::Val(2)),
            gen("b", 5, 2, 2, Torsion::Free),
        ],
        vec![],
    );
    let (pages, _) = get_filtered_data(&data, Category::Classical, 0, 1000, 1000, None);
    let finals = pages.get_final_page();
    assert_eq!(finals.len(), 1);
    assert_eq!(finals[0].name, "b");
}

#[test]
fn replay_is_deterministic() {
    // replaying the same (category, window, page) twice over an
    // unmodified relation set yields identical final-page output
    let data = store(
        vec![
            gen("a", 4, 1, 1, Torsion::Free),
            gen("b", 5, 2, 2, Torsion::Free),
            gen("c", 4, 3, 3, Torsion::Val(1)),
        ],
        vec![diff("b", "a", 1, 1)],
    );
    let (p1, d1) = get_filtered_data(&data, Category::Synthetic, 0, 1000, 1000, Some(4));
    let (p2, d2) = get_filtered_data(&data, Category::Synthetic, 0, 1000, 1000, Some(4));
    let f1 = p1.get_final_page();
    let f2 = p2.get_final_page();
    assert_eq!(f1.len(), f2.len());
    for (a, b) in f1.iter().zip(f2.iter()) {
        assert_eq!(a.name, b.name);
        assert_eq!(a.torsion, b.torsion);
        assert_eq!(a.filtration, b.filtration);
    }
    assert_eq!(d1.len(), d2.len());
}

#[test]
fn killed_generator_stays_killed() {
    // once a generator's most recent torsion is exactly-zero, no later
    // relation changes it
    let data = store(
        vec![
            gen("a", 4, 1, 1, Torsion::Free),
            gen("b", 5, 2, 2, Torsion::Free),
            gen("c", 5, 4, 3, Torsion::Free),
        ],
        vec![diff("b", "a", 0, 1), diff("c", "a", 0, 3)],
    );
    // the first relation kills both `b` and `a`; the second then finds
    // its target already exactly-zero and is inert
    let (pages, _) = get_filtered_data(&data, Category::Synthetic, 0, 1000, 1000, None);
    let finals = pages.get_final_page();
    assert_eq!(final_by_name(&finals, "a").0, Torsion::Zero);
    assert_eq!(final_by_name(&finals, "b").0, Torsion::Zero);
    // `c` was never consumed: its relation was inert
    assert_eq!(final_by_name(&finals, "c").0, Torsion::Free);
}

#[test]
fn window_and_stem_limit_filter_generators() {
    let data = store(
        vec![
            gen("in", 4, 2, 1, Torsion::Free),
            gen("low", 4, 0, 1, Torsion::Free),
            gen("far", 9, 2, 1, Torsion::Free),
        ],
        vec![],
    );
    let pages = PageSS::fill(&data, Category::Synthetic, 1, 5, Some(4));
    assert!(pages.contains(&"in".to_string()));
    assert!(!pages.contains(&"low".to_string()));
    assert!(!pages.contains(&"far".to_string()));
}

#[test]
fn get_recent_reads_most_recent_snapshot() {
    let data = store(vec![gen("a", 4, 1, 7, Torsion::Free)], vec![]);
    let mut pages = PageSS::fill(&data, Category::Synthetic, 0, 1000, None);
    let name = "a".to_string();
    assert_eq!(pages.get_recent(&name), (7, Torsion::Free, 7));
    pages.insert(&name, 3, Torsion::Val(2), 5);
    // the original filtration is still read from the seed snapshot
    assert_eq!(pages.get_recent(&name), (7, Torsion::Val(2), 5));
}

#[test]
fn tau_pass_runs_only_at_infinite_page() {
    let mut data = store(
        vec![
            gen("a", 4, 1, 3, Torsion::Val(1)),
            gen("b", 5, 2, 2, Torsion::Val(2)),
        ],
        vec![],
    );
    data.multiplications.push(synthetic_ehp::types::Multiplication {
        from: "a".to_string(),
        to: "b".to_string(),
        kind: Kind::Real,
    });
    // below the infinite-page threshold nothing happens
    let (pages, _) = get_filtered_data(&data, Category::Synthetic, 0, 1000, 999, None);
    let finals = pages.get_final_page();
    assert_eq!(final_by_name(&finals, "a").0, Torsion::Val(1));
    assert_eq!(final_by_name(&finals, "b").0, Torsion::Val(2));
    // at the infinite page the target dies and the source accumulates
    let (pages, _) = get_filtered_data(&data, Category::Synthetic, 0, 1000, 1000, None);
    let finals = pages.get_final_page();
    assert_eq!(final_by_name(&finals, "a").0, Torsion::Val(3));
    assert_eq!(final_by_name(&finals, "b").0, Torsion::Zero);
}
