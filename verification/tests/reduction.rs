use synthetic_ehp::lambda::{
    additively_reduce_poly, admissible_place, binom_bool, concatenate_mon_to_poly,
    concatenate_polys, differential_gen, differential_poly, leibniz_mon, leibniz_poly, mon_equal,
    mon_leq, mult_reduce_poly, reduce_pair, reduce_poly, remove_consecutive_dupes,
};

#[test]
fn binomial_parity_follows_the_bit_test() {
    assert!(binom_bool(0, 0));
    assert!(binom_bool(1, 3));
    assert!(!binom_bool(2, 1));
    assert!(binom_bool(2, 3));
    assert!(!binom_bool(1, 2));
}

#[test]
fn admissible_pairs_stay_put() {
    // an admissible pair is returned unchanged
    assert_eq!(reduce_pair(3, 1), vec![vec![3, 1]]);
    assert_eq!(reduce_pair(2, 4), vec![vec![2, 4]]);
}

#[test]
fn vanishing_relations_return_nothing() {
    // the pair (0, 3) rewrites to no terms at all
    assert_eq!(reduce_pair(0, 3), Vec::<Vec<u8>>::new());
    // the pair (0, 1) has an empty expansion range
    assert_eq!(reduce_pair(0, 1), Vec::<Vec<u8>>::new());
}

#[test]
fn inadmissible_pair_expands() {
    // (1, 4): n = 1, one candidate j = 0 with an odd binomial
    assert_eq!(reduce_pair(1, 4), vec![vec![2, 3]]);
}

#[test]
fn differentials_of_single_indices() {
    assert_eq!(differential_gen(0), Vec::<Vec<u8>>::new());
    assert_eq!(differential_gen(1), vec![vec![0, 0]]);
    assert_eq!(differential_gen(3), Vec::<Vec<u8>>::new());
    // b = 5: only c = 2 (d = 2) has an odd binomial
    assert_eq!(differential_gen(5), vec![vec![2, 2]]);
}

#[test]
fn leibniz_splices_each_position() {
    assert_eq!(leibniz_mon(&vec![1]), vec![vec![0, 0]]);
    assert_eq!(leibniz_mon(&vec![1, 1]), vec![vec![0, 0, 1], vec![1, 0, 0]]);
    assert_eq!(
        leibniz_poly(&vec![vec![1], vec![1]]),
        vec![vec![0, 0], vec![0, 0]]
    );
}

#[test]
fn monomial_orderings() {
    assert!(mon_leq(&vec![1, 2], &vec![1, 3]));
    assert!(!mon_leq(&vec![2], &vec![1, 3]));
    assert!(mon_leq(&vec![1], &vec![1, 3]));
    assert!(mon_equal(&vec![1, 2], &vec![1, 2]));
    assert!(!mon_equal(&vec![1, 2], &vec![1]));
}

#[test]
fn admissibility_check_reads_one_place() {
    assert!(admissible_place(1, &vec![3, 1]));
    assert!(!admissible_place(1, &vec![1, 3]));
}

#[test]
fn duplicate_monomials_cancel() {
    assert_eq!(
        remove_consecutive_dupes(vec![vec![2], vec![2], vec![1]]),
        vec![vec![2], vec![1]]
    );
    assert_eq!(
        additively_reduce_poly(vec![vec![1], vec![2], vec![1]]),
        vec![vec![2], vec![1]]
    );
}

#[test]
fn reduction_rewrites_to_admissible_form() {
    // [0, 3] is inadmissible and its expansion vanishes
    assert_eq!(mult_reduce_poly(vec![vec![0, 3]]), Vec::<Vec<u8>>::new());
    // an admissible monomial passes through
    assert_eq!(mult_reduce_poly(vec![vec![3, 1]]), vec![vec![3, 1]]);
    // [1, 4] rewrites to its admissible expansion [2, 3]
    assert_eq!(reduce_poly(vec![vec![1, 4]]), vec![vec![2, 3]]);
}

#[test]
fn differential_of_a_polynomial() {
    assert_eq!(differential_poly(vec![vec![0, 3]]), Vec::<Vec<u8>>::new());
    assert_eq!(differential_poly(vec![vec![1]]), vec![vec![0, 0]]);
}

#[test]
fn concatenations_pair_every_monomial() {
    assert_eq!(
        concatenate_polys(&vec![vec![1], vec![2]], &vec![vec![3], vec![4]]),
        vec![vec![1, 3], vec![1, 4], vec![2, 3], vec![2, 4]]
    );
    assert_eq!(
        concatenate_mon_to_poly(&vec![9], &vec![vec![3], vec![4]]),
        vec![vec![9, 3], vec![9, 4]]
    );
}
