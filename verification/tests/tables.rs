use synthetic_ehp::curtis::{
    add_final_diagonal, generate_algebraic_data, parse_algebraic_data, Tagged, Untagged,
};
use synthetic_ehp::data::{get_diffs, get_induced_names, get_tau_mults};
use synthetic_ehp::names::{make_name, parse_digits, split_first_token, split_paren};
use synthetic_ehp::processor::{add_diffs, add_induced_names, add_tau_mults};
use synthetic_ehp::reference::{read_rp_csv, RefEntry};
use synthetic_ehp::stable_curtis::generate_stable_algebraic_data;
use synthetic_ehp::stable_data::{
    get_stable_diffs, get_stable_tau_mults, synthetic_stable_e1,
};
use synthetic_ehp::types::{Differential, Generator, Kind, SyntheticEHP, Torsion};
use synthetic_ehp::verification::{verify_algebraic, verify_classical, verify_ehp_to_ahss, verify_integrity, verify_rp, verify_self_coherence, verify_stable};

fn untagged(stem: i32, filt: i32, tag: &str) -> Untagged {
    Untagged { stem, filt, tag: tag.to_string() }
}

fn tagged(stem: i32, filt: i32, left: &str, right: &str) -> Tagged {
    Tagged {
        stem,
        filt,
        left_tag: left.to_string(),
        right_tag: right.to_string(),
    }
}

#[test]
fn generate_table() {
    // Table copied from Google Sheets (tabs and newlines)
    // This contains the orders of the group
    let table_str = "2	2	2	2	2	2	2	2	2	2	2	2	2	2	2	2	2	2	2	2	2	2	2	2	2	2	2	2	2	2	2	2
1	2	2	2	2	2	2	2	2	2	2	2	2	2	2	2	2	2	2	2	2	2	2	2	2	2	2	2	2	2	2	2
1	2	2	2	2	2	2	2	2	2	2	2	2	2	2	2	2	2	2	2	2	2	2	2	2	2	2	2	2	2	2	2
1	2	12	24	24	24	24	24	24	24	24	24	24	24	24	24	24	24	24	24	24	24	24	24	24	24	24	24	24	24	24	24
1	12	2	4	2	1	1	1	1	1	1	1	1	1	1	1	1	1	1	1	1	1	1	1	1	1	1	1	1	1	1	1
1	2	2	4	2	1	1	1	1	1	1	1	1	1	1	1	1	1	1	1	1	1	1	1	1	1	1	1	1	1	1	1
1	2	3	72	2	2	2	2	2	2	2	2	2	2	2	2	2	2	2	2	2	2	2	2	2	2	2	2	2	2	2	2
1	3	15	15	30	60	120	240	240	240	240	240	240	240	240	240	240	240	240	240	240	240	240	240	240	240	240	240	240	240	240	240
1	15	2	2	2	48	8	16	8	4	4	4	4	4	4	4	4	4	4	4	4	4	4	4	4	4	4	4	4	4	4	4
1	2	4	8	8	8	16	32	16	8	8	8	8	8	8	8	8	8	8	8	8	8	8	8	8	8	8	8	8	8	8	8
1	4	24	2880	144	144	48	1152	48	24	12	6	6	6	6	6	6	6	6	6	6	6	6	6	6	6	6	6	6	6	6	6
1	24	336	2688	2016	2016	1008	1008	1008	504	504	504	504	504	504	504	504	504	504	504	504	504	504	504	504	504	504	504	504	504	504	504
1	336	4	64	8	240	1	1	1	12	2	4	2	1	1	1	1	1	1	1	1	1	1	1	1	1	1	1	1	1	1	1
1	4	6	288	12	6	6	12	6	6	12	12	6	3	3	3	3	3	3	3	3	3	3	3	3	3	3	3	3	3	3	3
1	6	30	30240	12	24	96	23040	64	32	32	384	32	16	8	4	4	4	4	4	4	4	4	4	4	4	4	4	4	4	4	4
1	30	30	30	60	360	960	3840	1920	960	480	480	960	960	960	960	960	960	960	960	960	960	960	960	960	960	960	960	960	960	960	960
1	30	12	72	4	2016	16	128	16	480	2	2	2	48	8	16	8	4	4	4	4	4	4	4	4	4	4	4	4	4	4	4
1	12	48	4608	16	16	16	96	16	8	8	16	16	16	32	64	32	16	16	16	16	16	16	16	16	16	16	16	16	16	16	16
1	48	48	46080	96	288	48	24192	48	96	64	15360	128	128	128	3072	128	64	32	16	16	16	16	16	16	16	16	16	16	16	16	16
1	48	264	4224	528	8448	528	528	528	1584	2112	8448	2112	2112	1056	1056	1056	528	528	528	528	528	528	528	528	528	528	528	528	528	528	528
1	264	4	64	24	5760	24	72	24	12096	96	768	192	5760	24	24	24	288	48	96	48	24	24	24	24	24	24	24	24	24	24	24
1	4	2	32	4	2	4	32	8	8	16	32	32	16	8	16	8	8	16	16	8	4	4	4	4	4	4	4	4	4	4	4
1	2	2	32	8	32	64	4096	128	64	64	512	64	128	128	2048	128	64	64	256	32	16	8	4	4	4	4	4	4	4	4	4
1	2	4	32	32	2048	1024	8192	2048	2048	512	512	512	512	2048	8192	2048	1024	512	512	512	256	256	256	256	256	256	256	256	256	256	256
1	4	8	32	16	512	128	4096	128	1024	32	16	16	128	64	512	64	128	8	4	4	16	8	16	8	4	4	4	4	4	4	4
1	8	32	2048	128	1024	256	32768	256	64	64	128	32	32	64	128	64	16	8	4	4	4	8	16	8	4	4	4	4	4	4	4
1	1	1	1	1	1	1	1	1	1	1	1	1	1	1	1	1	1	1	1	1	1	1	1	1	1	1	1	1	1	1	1
1	1	1	1	1	1	1	1	1	1	1	1	1	1	1	1	1	1	1	1	1	1	1	1	1	1	1	1	1	1	1	1
1	1	1	1	1	1	1	1	1	1	1	1	1	1	1	1	1	1	1	1	1	1	1	1	1	1	1	1	1	1	1	1
1	1	1	1	1	1	1	1	1	1	1	1	1	1	1	1	1	1	1	1	1	1	1	1	1	1	1	1	1	1	1	1
1	1	1	1	1	1	1	1	1	1	1	1	1	1	1	1	1	1	1	1	1	1	1	1	1	1	1	1	1	1	1	1
";

    // Parse the string into a 2D Vec<i32>
    let table: Vec<Vec<i32>> = table_str
        .lines() // split into rows
        .map(|line| {
            line.split('\t')          // split each row into columns
                .map(|s| s.parse::<i32>().unwrap()) // parse each cell to i32
                .collect()
        })
        .collect();

    // Print the 2D table
    println!("2D table: {:?}", table);
}

#[test]
fn names_are_built_and_parsed() {
    assert_eq!(make_name("5 3", 6), "5 3[6]");
    assert_eq!(make_name("", 15), "[15]");
    assert_eq!(parse_digits("240"), Some(240));
    assert_eq!(parse_digits(""), None);
    assert_eq!(parse_digits("2x"), None);
    let (v, rest) = split_first_token("6 5 3").unwrap();
    assert_eq!(v, 6);
    assert_eq!(rest, "5 3");
    let (y, rest) = split_paren("(6) 5 3").unwrap();
    assert_eq!(y, 6);
    assert_eq!(rest, "5 3");
    assert!(split_paren("6 5 3").is_none());
}

#[test]
fn generation_derives_expected_generators() {
    // one stable entry visible from sphere 3 on, one tagged entry that
    // lifts a differential
    let us = vec![untagged(2, 1, "1")];
    let ts = vec![tagged(3, 2, "3 1", "5 2")];
    let data = generate_algebraic_data(&us, &ts).unwrap();
    // the base generator `[0]` and the degree-zero parts exist
    assert!(data.find(&"[0]".to_string()).is_some());
    assert!(data.find(&"[1]".to_string()).is_some());
    // the untagged entry appears on spheres above its leading number
    let g = data.find(&"1[1]".to_string()).expect("stable generator missing");
    assert_eq!(g.x, 3);
    assert_eq!(g.y, 1);
    assert_eq!(g.adams_filtration, 2);
    // the tagged entry lifts a differential from its right tag to its left
    let mut found = false;
    for d in &data.differentials {
        if d.from == "2[5]" && d.to == "1[3]" {
            assert_eq!(d.d, 2);
            assert_eq!(d.coeff, 0);
            found = true;
        }
    }
    assert!(found, "lifted differential missing");
    // the differential list is in page order after generation
    for w in data.differentials.windows(2) {
        assert!(w[0].d < w[1].d || (w[0].d == w[1].d && w[0].coeff >= w[1].coeff));
    }
}

#[test]
fn malformed_tables_are_rejected() {
    let us = vec![untagged(2, 1, "x")];
    assert!(parse_algebraic_data(&us, &vec![]).is_err());
}

#[test]
fn stable_generation_pairs_sources_and_targets() {
    let ts = vec![tagged(14, 2, "(6) 5 3", "(15)")];
    let data = generate_stable_algebraic_data(&vec![], &ts).unwrap();
    let to = data.find(&"5 3[6]".to_string()).expect("target generator missing");
    assert_eq!(to.x, 14);
    assert_eq!(to.adams_filtration, 2);
    let from = data.find(&"[15]".to_string()).expect("source generator missing");
    assert_eq!(from.x, 15);
    assert_eq!(from.adams_filtration, 1);
    assert_eq!(data.differentials.len(), 1);
    assert_eq!(data.differentials[0].from, "[15]");
    assert_eq!(data.differentials[0].to, "5 3[6]");
    assert_eq!(data.differentials[0].d, 9);
}

#[test]
fn recorded_tables_have_their_sizes() {
    assert_eq!(get_diffs().len(), 63);
    assert_eq!(get_tau_mults().len(), 21);
    assert_eq!(get_induced_names().len(), 20);
    assert_eq!(get_stable_diffs().len(), 2);
    assert_eq!(get_stable_tau_mults().len(), 8);
    // the first recorded differential is the stable one on stems 14/15
    let diffs = get_diffs();
    assert_eq!(diffs[0].from, "[15]");
    assert_eq!(diffs[0].to, "5 3[6]");
    assert_eq!(diffs[0].coeff, 1);
    assert_eq!(diffs[0].d, 9);
    assert_eq!(diffs[0].kind, Kind::Real);
}

#[test]
fn recorded_relations_populate_a_store() {
    let mut data = SyntheticEHP {
        generators: vec![Generator::new("[15]".to_string(), 14, 1, 1)],
        differentials: Vec::new(),
        multiplications: Vec::new(),
        find_map: Vec::new(),
    };
    data.build_find_map();
    add_diffs(&mut data);
    assert_eq!(data.differentials.len(), 63);
    for w in data.differentials.windows(2) {
        assert!(w[0].d < w[1].d || (w[0].d == w[1].d && w[0].coeff >= w[1].coeff));
    }
    add_tau_mults(&mut data);
    assert_eq!(data.multiplications.len(), 21);
    add_induced_names(&mut data);
    assert_eq!(data.generators[0].induced_name, "[15]");
}

#[test]
fn stable_torsion_is_recorded_by_name() {
    let mut data = SyntheticEHP {
        generators: vec![
            Generator::new("6 5 3[4]".to_string(), 18, 4, 2),
            Generator::new("15[2]".to_string(), 17, 2, 1),
            Generator::new("other[4]".to_string(), 18, 4, 2),
        ],
        differentials: Vec::new(),
        multiplications: Vec::new(),
        find_map: Vec::new(),
    };
    data.build_find_map();
    synthetic_stable_e1(&mut data);
    assert_eq!(data.generators[0].torsion, Torsion::Val(1));
    assert_eq!(data.generators[1].torsion, Torsion::Zero);
    assert_eq!(data.generators[2].torsion, Torsion::Free);
}

#[test]
fn final_diagonal_is_appended() {
    let mut data = SyntheticEHP {
        generators: Vec::new(),
        differentials: Vec::new(),
        multiplications: Vec::new(),
        find_map: Vec::new(),
    };
    add_final_diagonal(&mut data);
    assert_eq!(data.generators.len(), 26);
    assert_eq!(data.differentials.len(), 13);
    assert_eq!(data.generators[0].name, "2(\u{221e})[1]");
    assert_eq!(data.generators[1].name, "1(\u{221e})[2]");
    assert_eq!(data.differentials[0].from, "1(\u{221e})[2]");
    assert_eq!(data.differentials[0].to, "2(\u{221e})[1]");
    assert_eq!(data.differentials[0].d, 1);
}

#[test]
fn reference_rows_are_grouped_and_sorted() {
    // even format: (stem, af, .., page); the sentinel becomes the
    // torsion-free state and pages shift to zero-based numbering
    let rows = vec![
        vec![Some(20), Some(4), Some(7)],
        vec![Some(20), Some(4), Some(9000)],
        vec![Some(20), Some(4), Some(3)],
        vec![Some(30), Some(1), Some(3)],
    ];
    let table = read_rp_csv(3, 256, &rows).unwrap();
    // the over-bound stem is dropped
    assert_eq!(table.len(), 1);
    let e: &RefEntry = &table[0];
    assert_eq!(e.stem, 20);
    assert_eq!(e.af, 5);
    assert_eq!(e.pages, vec![Torsion::Free, Torsion::Val(2), Torsion::Val(6)]);
}

#[test]
fn reference_base_window_shifts_stems() {
    let rows = vec![vec![Some(20), Some(4), Some(7)]];
    let table = read_rp_csv(1, 2, &rows).unwrap();
    assert_eq!(table[0].stem, 21);
}

#[test]
fn integrity_accepts_sound_data_and_rejects_broken() {
    let mut data = SyntheticEHP {
        generators: vec![
            Generator::new("a".to_string(), 5, 3, 1),
            Generator::new("b".to_string(), 4, 1, 2),
        ],
        differentials: vec![Differential {
            from: "a".to_string(),
            to: "b".to_string(),
            coeff: 0,
            d: 2,
            kind: Kind::Real,
            synthetic: false,
            justification: None,
        }],
        multiplications: Vec::new(),
        find_map: Vec::new(),
    };
    data.build_find_map();
    let (ok, issues) = verify_integrity(&data);
    assert!(ok);
    assert!(issues.is_empty());

    data.differentials[0].to = "missing".to_string();
    let (ok, issues) = verify_integrity(&data);
    assert!(!ok);
    assert!(!issues.is_empty());
}

#[test]
fn stable_totals_mismatch_on_a_toy_store() {
    // a store with no generators cannot reproduce the known totals
    let data = SyntheticEHP {
        generators: Vec::new(),
        differentials: Vec::new(),
        multiplications: Vec::new(),
        find_map: Vec::new(),
    };
    let (ok, issues) = verify_stable(&data);
    assert!(!ok);
    assert!(!issues.is_empty());
}

#[test]
fn ordered_insert_keeps_the_page_order_after_every_insert() {
    let mut data = SyntheticEHP {
        generators: Vec::new(),
        differentials: Vec::new(),
        multiplications: Vec::new(),
        find_map: Vec::new(),
    };
    let entries = [(9, 1), (3, 0), (9, 5), (3, 2), (12, 0), (9, 3)];
    for (d, coeff) in entries {
        data.insert_diff(Differential {
            from: "a".to_string(),
            to: "b".to_string(),
            coeff,
            d,
            kind: Kind::Real,
            synthetic: false,
            justification: None,
        });
        for w in data.differentials.windows(2) {
            assert!(
                w[0].d < w[1].d || (w[0].d == w[1].d && w[0].coeff >= w[1].coeff),
                "list out of order after inserting d={d}"
            );
        }
    }
    assert_eq!(data.differentials.len(), entries.len());
    let ds: Vec<(i32, i32)> = data.differentials.iter().map(|d| (d.d, d.coeff)).collect();
    assert_eq!(ds, vec![(3, 2), (3, 0), (9, 5), (9, 3), (9, 1), (12, 0)]);
}

#[test]
fn category_comparison_accepts_an_empty_store() {
    let mut data = SyntheticEHP {
        generators: Vec::new(),
        differentials: Vec::new(),
        multiplications: Vec::new(),
        find_map: Vec::new(),
    };
    data.build_find_map();
    let (ok, issues) = verify_algebraic(&data);
    assert!(ok);
    assert!(issues.is_empty());
}

#[test]
fn category_comparison_flags_a_lone_torsion_class() {
    // a torsion generator contributes a shifted algebraic copy that the
    // algebraic replay of the same store does not have
    let mut g = Generator::new("a".to_string(), 4, 1, 2);
    g.torsion = Torsion::Val(1);
    let mut data = SyntheticEHP {
        generators: vec![g],
        differentials: Vec::new(),
        multiplications: Vec::new(),
        find_map: Vec::new(),
    };
    data.build_find_map();
    let (ok, issues) = verify_algebraic(&data);
    assert!(!ok);
    assert!(!issues.is_empty());
}

#[test]
fn classical_totals_mismatch_on_an_empty_store() {
    let mut data = SyntheticEHP {
        generators: Vec::new(),
        differentials: Vec::new(),
        multiplications: Vec::new(),
        find_map: Vec::new(),
    };
    data.build_find_map();
    // the recorded table expects one generator in stem 0 on every sphere
    let (ok, issues) = verify_classical(&data);
    assert!(!ok);
    assert!(!issues.is_empty());
}

#[test]
fn sequence_comparison_accepts_matching_stores() {
    let mut a = SyntheticEHP {
        generators: vec![Generator::new("g".to_string(), 4, 1, 2)],
        differentials: Vec::new(),
        multiplications: Vec::new(),
        find_map: Vec::new(),
    };
    a.build_find_map();
    let mut b = SyntheticEHP {
        generators: vec![Generator::new("g".to_string(), 4, 1, 2)],
        differentials: Vec::new(),
        multiplications: Vec::new(),
        find_map: Vec::new(),
    };
    b.build_find_map();
    let (ok, issues) = verify_ehp_to_ahss(&a, &b);
    assert!(ok, "{issues:?}");
}

#[test]
fn sequence_comparison_flags_filtration_disagreement() {
    let mut a = SyntheticEHP {
        generators: vec![Generator::new("g".to_string(), 4, 1, 2)],
        differentials: Vec::new(),
        multiplications: Vec::new(),
        find_map: Vec::new(),
    };
    a.build_find_map();
    let mut b = SyntheticEHP {
        generators: vec![Generator::new("g".to_string(), 4, 1, 5)],
        differentials: Vec::new(),
        multiplications: Vec::new(),
        find_map: Vec::new(),
    };
    b.build_find_map();
    let (ok, _issues) = verify_ehp_to_ahss(&a, &b);
    assert!(!ok);
}

fn coherence_store(row_af: i32) -> SyntheticEHP {
    // `s` converges on the three-sphere under induced name `R`; the row
    // element `r` stands for it one filtration up.  On the wider windows
    // `s` is killed through `k`, which itself sits on its own diagonal
    // and so never counts as a row element.
    let mut image = Generator::new("s".to_string(), 1, 1, 3);
    image.induced_name = "R".to_string();
    let row = Generator::new("r".to_string(), 24, 1, row_af);
    let killer = Generator::new("k".to_string(), 2, 2, 1);
    let mut data = SyntheticEHP {
        generators: vec![image, row, killer],
        differentials: Vec::new(),
        multiplications: Vec::new(),
        find_map: Vec::new(),
    };
    data.insert_diff(Differential {
        from: "s".to_string(),
        to: "k".to_string(),
        coeff: 0,
        d: 1,
        kind: Kind::Real,
        synthetic: false,
        justification: None,
    });
    data.build_find_map();
    data
}

#[test]
fn self_coherence_accepts_a_matching_row() {
    let data = coherence_store(4);
    let translations = vec![("r".to_string(), "R".to_string())];
    let (ok, issues) = verify_self_coherence(&data, &translations);
    assert!(ok, "{issues:?}");
}

#[test]
fn self_coherence_flags_a_filtration_shift() {
    let data = coherence_store(5);
    let translations = vec![("r".to_string(), "R".to_string())];
    let (ok, _issues) = verify_self_coherence(&data, &translations);
    assert!(!ok);
}

#[test]
fn reference_comparison_accepts_a_matching_window() {
    let mut g = Generator::new("u".to_string(), 4, 1, 3);
    g.torsion = Torsion::Val(6);
    let mut data = SyntheticEHP {
        generators: vec![g],
        differentials: Vec::new(),
        multiplications: Vec::new(),
        find_map: Vec::new(),
    };
    data.build_find_map();
    let tables = vec![((1, 5), vec![RefEntry { stem: 4, af: 3, pages: vec![Torsion::Val(6)] }])];
    let (ok, issues) = verify_rp(&data, &tables);
    assert!(ok, "{issues:?}");
}

#[test]
fn reference_comparison_flags_a_page_mismatch() {
    let mut g = Generator::new("u".to_string(), 4, 1, 3);
    g.torsion = Torsion::Val(6);
    let mut data = SyntheticEHP {
        generators: vec![g],
        differentials: Vec::new(),
        multiplications: Vec::new(),
        find_map: Vec::new(),
    };
    data.build_find_map();
    let tables = vec![((1, 5), vec![RefEntry { stem: 4, af: 3, pages: vec![Torsion::Val(7)] }])];
    let (ok, _issues) = verify_rp(&data, &tables);
    assert!(!ok);
}
