use vstd::prelude::*;

verus! {

/// A monomial: a sequence of generator indices.
pub type Monomial = Vec<u8>;

/// The monomial values of a polynomial.
pub open spec fn polys_view(v: Seq<Monomial>) -> Seq<Seq<u8>> {
    v.map_values(|m: Monomial| m@)
}

/// Viewing distributes over appending a monomial.
pub proof fn lemma_polys_view_push(v: Seq<Monomial>, m: Monomial)
    ensures
        polys_view(v.push(m)) == polys_view(v).push(m@),
{
    assert(polys_view(v.push(m)) =~= polys_view(v).push(m@));
}

/// Whether the binomial coefficient C(n, m) is odd, by the bitwise test
/// of Lucas's theorem in base two.
pub open spec fn spec_binom_odd(m: u8, n: u8) -> bool {
    (m & n) == m
}

/// Binomial parity: C(n, m) is odd exactly when every base-two digit of
/// `m` is dominated by the matching digit of `n`.
pub fn binom_bool(m: u8, n: u8) -> (r: bool)
    ensures
        r == spec_binom_odd(m, n),
{
    (m & n) == m
}

/// The admissibility relation at one position: the left index carries at
/// least half of the right one.
pub open spec fn adm_at(mon: Seq<u8>, n: int) -> bool {
    2 * mon[n - 1] >= mon[n]
}

/// A fully admissible monomial.
pub open spec fn admissible(mon: Seq<u8>) -> bool {
    forall|n: int| 1 <= n < mon.len() ==> adm_at(mon, n)
}

/// Whether one position of a monomial is admissible.
pub fn admissible_place(n: usize, mon: &Vec<u8>) -> (r: bool)
    requires
        1 <= n < mon@.len(),
    ensures
        r == adm_at(mon@, n as int),
{
    2 * (mon[n - 1] as u16) >= mon[n] as u16
}

/// The monomials that replace an inadmissible pair `(i, k)` under the
/// Adem relations, produced for ascending `j`.
pub open spec fn spec_reduce_pair_loop(i: u8, k: u8, n: u8, count: nat) -> Seq<Seq<u8>>
    decreases count,
{
    if count == 0 {
        Seq::empty()
    } else {
        let rest = spec_reduce_pair_loop(i, k, n, (count - 1) as nat);
        let j = (count - 1) as u8;
        if spec_binom_odd((n - (j + 1)) as u8, j) {
            rest.push(seq![(i + n - j) as u8, (1 + 2 * i + j) as u8])
        } else {
            rest
        }
    }
}

/// The replacement of the pair `(i, k)`: the pair itself when admissible,
/// nothing when the relation vanishes, else the Adem expansion.
pub open spec fn spec_reduce_pair(i: u8, k: u8) -> Seq<Seq<u8>> {
    if 2 * i >= k {
        seq![seq![i, k]]
    } else {
        let n = (k - 2 * i - 1) as u8;
        if n == 0 {
            Seq::empty()
        } else {
            spec_reduce_pair_loop(i, k, n, (((n + 1) / 2) as nat))
        }
    }
}

/// Rewrite one pair of indices by the Adem relations.
pub fn reduce_pair(i: u8, k: u8) -> (r: Vec<Monomial>)
    ensures
        polys_view(r@) == spec_reduce_pair(i, k),
{
    if 2 * (i as u16) >= k as u16 {
        let mut m: Vec<u8> = Vec::new();
        m.push(i);
        m.push(k);
        let mut r: Vec<Monomial> = Vec::new();
        r.push(m);
        proof {
            assert(polys_view(r@)[0] =~= seq![i, k]);
            assert(polys_view(r@) =~= seq![seq![i, k]]);
        }
        return r;
    }
    let n: u8 = k - 2 * i - 1;
    let mut result: Vec<Monomial> = Vec::new();
    if n == 0 {
        proof {
            assert(polys_view(result@) =~= spec_reduce_pair(i, k));
        }
        return result;
    }
    let count: u8 = (n + 1) / 2;
    let mut j: u8 = 0;
    while j < count
        invariant
            2 * i < k,
            n == k - 2 * i - 1,
            n > 0,
            count == (n + 1) / 2,
            0 <= j <= count,
            polys_view(result@) == spec_reduce_pair_loop(i, k, n, j as nat),
        decreases count - j,
    {
        if binom_bool(n - (j + 1), j) {
            let mut m: Vec<u8> = Vec::new();
            m.push(i + n - j);
            m.push(1 + 2 * i + j);
            let ghost mfull = m;
            result.push(m);
            proof {
                assert(mfull@ =~= seq![(i + n - j) as u8, (1 + 2 * i + j) as u8]);
                assert(polys_view(result@) =~= spec_reduce_pair_loop(i, k, n, (j + 1) as nat));
            }
        } else {
            proof {
                assert(polys_view(result@) =~= spec_reduce_pair_loop(i, k, n, (j + 1) as nat));
            }
        }
        j = j + 1;
    }
    result
}

/// The boundary terms of a single generator index.
pub open spec fn spec_differential_gen_loop(b: u8, count: nat) -> Seq<Seq<u8>>
    decreases count,
{
    if count == 0 {
        Seq::empty()
    } else {
        let rest = spec_differential_gen_loop(b, (count - 1) as nat);
        let c = (count - 1) as u8;
        let d = (b - c - 1) as u8;
        if spec_binom_odd(d, (c + 1) as u8) {
            rest.push(seq![d, c])
        } else {
            rest
        }
    }
}

/// The differential of a single generator index, term by term.
pub open spec fn spec_differential_gen(b: u8) -> Seq<Seq<u8>> {
    spec_differential_gen_loop(b, (((b + 1) / 2) as nat))
}

/// The differential of a single generator index.
pub fn differential_gen(b: u8) -> (r: Vec<Monomial>)
    ensures
        polys_view(r@) == spec_differential_gen(b),
{
    let mut result: Vec<Monomial> = Vec::new();
    let count_w: u16 = (b as u16 + 1) / 2;
    let count: u8 = count_w as u8;
    let mut c: u8 = 0;
    while c < count
        invariant
            count == (b + 1) / 2,
            0 <= c <= count,
            polys_view(result@) == spec_differential_gen_loop(b, c as nat),
        decreases count - c,
    {
        let d: u8 = b - c - 1;
        if binom_bool(d, c + 1) {
            let mut m: Vec<u8> = Vec::new();
            m.push(d);
            m.push(c);
            let ghost mfull = m;
            result.push(m);
            proof {
                assert(mfull@ =~= seq![(b - c - 1) as u8, c]);
                assert(polys_view(result@) =~= spec_differential_gen_loop(b, (c + 1) as nat));
            }
        } else {
            proof {
                assert(polys_view(result@) =~= spec_differential_gen_loop(b, (c + 1) as nat));
            }
        }
        c = c + 1;
    }
    result
}

fn copy_mon(m: &Vec<u8>) -> (r: Vec<u8>)
    ensures
        r@ == m@,
{
    let mut r: Vec<u8> = Vec::new();
    let n = m.len();
    let mut i: usize = 0;
    while i < n
        invariant
            n == m@.len(),
            0 <= i <= n,
            r@ == m@.take(i as int),
        decreases n - i,
    {
        r.push(m[i]);
        proof {
            assert(r@ =~= m@.take(i + 1));
        }
        i = i + 1;
    }
    proof {
        assert(m@.take(n as int) =~= m@);
    }
    r
}

/// The monomial with the pair at positions `(p, p+1)` replaced by `nm`.
fn splice(mon: &Vec<u8>, p: usize, nm: &Vec<u8>) -> (r: Vec<u8>)
    requires
        p + 1 < mon@.len(),
    ensures
        r@ == mon@.take(p as int) + nm@ + mon@.skip(p + 2),
{
    let mut r: Vec<u8> = Vec::new();
    let mut i: usize = 0;
    while i < p
        invariant
            p + 1 < mon@.len(),
            0 <= i <= p,
            r@ == mon@.take(i as int),
        decreases p - i,
    {
        r.push(mon[i]);
        proof {
            assert(r@ =~= mon@.take(i + 1));
        }
        i = i + 1;
    }
    let nn = nm.len();
    let mut q: usize = 0;
    while q < nn
        invariant
            nn == nm@.len(),
            0 <= q <= nn,
            r@ == mon@.take(p as int) + nm@.take(q as int),
        decreases nn - q,
    {
        r.push(nm[q]);
        proof {
            assert(r@ =~= mon@.take(p as int) + nm@.take(q + 1));
        }
        q = q + 1;
    }
    proof {
        assert(nm@.take(nn as int) =~= nm@);
    }
    let ml = mon.len();
    let mut t: usize = p + 2;
    while t < ml
        invariant
            ml == mon@.len(),
            p + 2 <= t <= ml,
            r@ == mon@.take(p as int) + nm@ + mon@.skip(p + 2).take(t - (p + 2)),
        decreases ml - t,
    {
        proof {
            assert(mon@.skip(p + 2)[(t - (p + 2)) as int] == mon@[t as int]);
        }
        r.push(mon[t]);
        proof {
            assert(r@ =~= mon@.take(p as int) + nm@ + mon@.skip(p + 2).take(t + 1 - (p + 2)));
        }
        t = t + 1;
    }
    proof {
        assert(mon@.skip(p + 2).take(ml - (p + 2)) =~= mon@.skip(p + 2));
    }
    r
}

/// The first inadmissible position of a monomial, or its length.
pub open spec fn first_inadm(mon: Seq<u8>) -> int {
    if exists|n: int| 1 <= n < mon.len() && !adm_at(mon, n) {
        choose|n: int|
            1 <= n < mon.len() && !adm_at(mon, n) && (forall|q: int|
                1 <= q < n ==> adm_at(mon, q))
    } else {
        mon.len() as int
    }
}

fn find_first_inadm(mon: &Vec<u8>) -> (r: usize)
    ensures
        r as int == first_inadm(mon@),
        r as int <= mon@.len(),
        r < mon@.len() ==> 1 <= r < mon@.len() && !adm_at(mon@, r as int) && (forall|q: int|
            1 <= q < r ==> adm_at(mon@, q)),
        r == mon@.len() ==> admissible(mon@),
{
    let n = mon.len();
    let mut i: usize = 1;
    if n == 0 {
        proof {
            assert(!(exists|q: int| 1 <= q < mon@.len() && !adm_at(mon@, q)));
        }
        return 0;
    }
    while i < n
        invariant_except_break
            n == mon@.len(),
            1 <= i <= n,
            forall|q: int| 1 <= q < i ==> adm_at(mon@, q),
        ensures
            1 <= i <= n,
            forall|q: int| 1 <= q < i ==> adm_at(mon@, q),
            i < n ==> !adm_at(mon@, i as int),
        decreases n - i,
    {
        if !admissible_place(i, mon) {
            break;
        }
        i = i + 1;
    }
    proof {
        if i < n {
            assert(first_inadm(mon@) == i as int) by {
                let w = choose|q: int|
                    1 <= q < mon@.len() && !adm_at(mon@, q) && (forall|p: int|
                        1 <= p < q ==> adm_at(mon@, p));
                if w < i {
                    assert(adm_at(mon@, w));
                }
                if w > i {
                    assert(adm_at(mon@, i as int));
                }
            }
        } else {
            assert(!(exists|q: int| 1 <= q < mon@.len() && !adm_at(mon@, q)));
        }
    }
    if i < n {
        i
    } else {
        n
    }
}

/// The pending stack after one rewrite of a monomial's first inadmissible
/// pair: each Adem replacement spliced in.
pub open spec fn spec_expand(stack: Seq<Seq<u8>>, mon: Seq<u8>, p: int) -> Seq<Seq<u8>>
    decreases spec_reduce_pair(mon[p - 1], mon[p]).len(),
{
    spec_expand_loop(stack, mon, p, spec_reduce_pair(mon[p - 1], mon[p]).len() as int)
}

/// The first `count` Adem replacements spliced onto the stack.
pub open spec fn spec_expand_loop(stack: Seq<Seq<u8>>, mon: Seq<u8>, p: int, count: int) -> Seq<
    Seq<u8>,
>
    decreases count,
{
    if count <= 0 {
        stack
    } else {
        let nm = spec_reduce_pair(mon[p - 1], mon[p])[count - 1];
        spec_expand_loop(stack, mon, p, count - 1).push(mon.take(p - 1) + nm + mon.skip(p + 1))
    }
}

/// One bounded rewriting pass of the multiplicative reduction.  `fuel`
/// bounds the number of stack steps; each step either moves an admissible
/// monomial to the result or replaces an inadmissible pair.  When fuel
/// runs out the remaining stack is handed back unreduced.
pub open spec fn spec_mult_reduce(stack: Seq<Seq<u8>>, acc: Seq<Seq<u8>>, fuel: nat) -> Seq<
    Seq<u8>,
>
    decreases fuel,
{
    if fuel == 0 {
        acc + stack
    } else if stack.len() == 0 {
        acc
    } else {
        let mon = stack.last();
        let p = first_inadm(mon);
        if p == mon.len() {
            spec_mult_reduce(stack.drop_last(), acc.push(mon), (fuel - 1) as nat)
        } else {
            spec_mult_reduce(spec_expand(stack.drop_last(), mon, p), acc, (fuel - 1) as nat)
        }
    }
}

/// Whether the reduction runs to completion within the budget.
pub open spec fn spec_reduction_completes(stack: Seq<Seq<u8>>, fuel: nat) -> bool
    decreases fuel,
{
    if stack.len() == 0 {
        true
    } else if fuel == 0 {
        false
    } else {
        let mon = stack.last();
        let p = first_inadm(mon);
        if p == mon.len() {
            spec_reduction_completes(stack.drop_last(), (fuel - 1) as nat)
        } else {
            spec_reduction_completes(spec_expand(stack.drop_last(), mon, p), (fuel - 1) as nat)
        }
    }
}

/// An inadmissible position has a first inadmissible position at or
/// before it.
proof fn lemma_exists_first_inadm(mon: Seq<u8>, n: int)
    requires
        1 <= n < mon.len(),
        !adm_at(mon, n),
    ensures
        exists|m: int|
            1 <= m < mon.len() && !adm_at(mon, m) && (forall|q: int|
                1 <= q < m ==> adm_at(mon, q)),
    decreases n,
{
    if forall|q: int| 1 <= q < n ==> adm_at(mon, q) {
        assert(1 <= n < mon.len() && !adm_at(mon, n) && (forall|q: int|
            1 <= q < n ==> adm_at(mon, q)));
    } else {
        let w = choose|q: int| 1 <= q < n && !adm_at(mon, q);
        lemma_exists_first_inadm(mon, w);
    }
}

/// A monomial whose first inadmissible position is its length is
/// admissible.
proof fn lemma_no_inadm_admissible(mon: Seq<u8>)
    requires
        first_inadm(mon) == mon.len(),
    ensures
        admissible(mon),
{
    if exists|n: int| 1 <= n < mon.len() && !adm_at(mon, n) {
        let n = choose|n: int| 1 <= n < mon.len() && !adm_at(mon, n);
        lemma_exists_first_inadm(mon, n);
        let w = choose|m: int|
            1 <= m < mon.len() && !adm_at(mon, m) && (forall|q: int|
                1 <= q < m ==> adm_at(mon, q));
        assert(first_inadm(mon) == w);
    }
}

/// Whenever the rewriting budget suffices, every monomial of the
/// reduction is admissible: only monomials with no inadmissible position
/// ever reach the result.
pub proof fn lemma_mult_reduce_admissible(stack: Seq<Seq<u8>>, acc: Seq<Seq<u8>>, fuel: nat)
    requires
        spec_reduction_completes(stack, fuel),
        forall|k: int| 0 <= k < acc.len() ==> admissible(#[trigger] acc[k]),
    ensures
        forall|k: int|
            0 <= k < spec_mult_reduce(stack, acc, fuel).len() ==> admissible(
                #[trigger] spec_mult_reduce(stack, acc, fuel)[k],
            ),
    decreases fuel,
{
    if stack.len() == 0 {
        if fuel == 0 {
            assert(spec_mult_reduce(stack, acc, fuel) =~~= acc);
        }
    } else {
        let mon = stack.last();
        let p = first_inadm(mon);
        if p == mon.len() {
            lemma_no_inadm_admissible(mon);
            assert(forall|k: int|
                0 <= k < acc.push(mon).len() ==> admissible(#[trigger] acc.push(mon)[k]));
            lemma_mult_reduce_admissible(stack.drop_last(), acc.push(mon), (fuel - 1) as nat);
            let inner = spec_mult_reduce(stack.drop_last(), acc.push(mon), (fuel - 1) as nat);
            assert(spec_mult_reduce(stack, acc, fuel) == inner);
            assert forall|k: int|
                0 <= k < spec_mult_reduce(stack, acc, fuel).len() implies admissible(
                #[trigger] spec_mult_reduce(stack, acc, fuel)[k],
            ) by {
                assert(spec_mult_reduce(stack, acc, fuel)[k] == inner[k]);
                assert(admissible(inner[k]));
            }
        } else {
            lemma_mult_reduce_admissible(
                spec_expand(stack.drop_last(), mon, p),
                acc,
                (fuel - 1) as nat,
            );
            let inner = spec_mult_reduce(
                spec_expand(stack.drop_last(), mon, p),
                acc,
                (fuel - 1) as nat,
            );
            assert(spec_mult_reduce(stack, acc, fuel) == inner);
            assert forall|k: int|
                0 <= k < spec_mult_reduce(stack, acc, fuel).len() implies admissible(
                #[trigger] spec_mult_reduce(stack, acc, fuel)[k],
            ) by {
                assert(spec_mult_reduce(stack, acc, fuel)[k] == inner[k]);
                assert(admissible(inner[k]));
            }
        }
    }
}

/// The rewriting budget of a reduction: far beyond anything the tables
/// reach, so that in practice the reduction always runs to completion.
pub const REDUCE_FUEL: u64 = 0xffff_ffff_ffff_ffff;

/// Reduce a polynomial to admissible monomials by rewriting inadmissible
/// pairs with the Adem relations, popping from the end of the pending
/// stack.  The rewriting is bounded by `REDUCE_FUEL` stack steps, which
/// nothing the recorded tables produce comes near.
pub fn mult_reduce_poly(poly: Vec<Monomial>) -> (r: Vec<Monomial>)
    ensures
        polys_view(r@) == spec_mult_reduce(polys_view(poly@), Seq::empty(), REDUCE_FUEL as nat),
{
    let mut stack = poly;
    let mut result: Vec<Monomial> = Vec::new();
    let mut fuel: u64 = REDUCE_FUEL;
    let ghost target = spec_mult_reduce(polys_view(stack@), Seq::empty(), REDUCE_FUEL as nat);
    proof {
        assert(polys_view(result@) =~= Seq::<Seq<u8>>::empty());
    }
    while stack.len() > 0 && fuel > 0
        invariant
            spec_mult_reduce(polys_view(stack@), polys_view(result@), fuel as nat) == target,
        decreases fuel,
    {
        let ghost prev_stack = polys_view(stack@);
        let ghost prev_result = polys_view(result@);
        let ghost prev_fuel = fuel as nat;
        let mon = match stack.pop() {
            Some(m) => m,
            None => {
                proof {
                    assert(false);
                }
                return result;
            },
        };
        let ghost monv = mon@;
        proof {
            assert(prev_stack.last() == monv);
            assert(prev_stack.drop_last() =~= polys_view(stack@));
        }
        let p = find_first_inadm(&mon);
        if p == mon.len() {
            result.push(mon);
            proof {
                assert(polys_view(result@) =~= prev_result.push(monv));
                assert(spec_mult_reduce(prev_stack, prev_result, prev_fuel) == spec_mult_reduce(
                    polys_view(stack@),
                    polys_view(result@),
                    (prev_fuel - 1) as nat,
                ));
            }
        } else {
            let expansions = reduce_pair(mon[p - 1], mon[p]);
            let en = expansions.len();
            let mut e: usize = 0;
            proof {
                assert(polys_view(stack@) =~= spec_expand_loop(
                    prev_stack.drop_last(),
                    monv,
                    p as int,
                    0,
                ));
            }
            while e < en
                invariant
                    en == expansions@.len(),
                    0 <= e <= en,
                    polys_view(expansions@) == spec_reduce_pair(monv[p as int - 1], monv[p as int]),
                    monv == mon@,
                    1 <= p < mon@.len(),
                    polys_view(stack@) == spec_expand_loop(
                        prev_stack.drop_last(),
                        monv,
                        p as int,
                        e as int,
                    ),
                decreases en - e,
            {
                let nm = splice(&mon, p - 1, &expansions[e]);
                let ghost nmv = nm@;
                stack.push(nm);
                proof {
                    assert(nmv =~= monv.take(p as int - 1) + polys_view(expansions@)[e as int]
                        + monv.skip(p as int + 1));
                    assert(polys_view(stack@) =~= spec_expand_loop(
                        prev_stack.drop_last(),
                        monv,
                        p as int,
                        e as int + 1,
                    ));
                }
                e = e + 1;
            }
            proof {
                assert(polys_view(stack@) == spec_expand(prev_stack.drop_last(), monv, p as int));
                assert(polys_view(result@) == prev_result);
                assert(spec_mult_reduce(prev_stack, prev_result, prev_fuel) == spec_mult_reduce(
                    polys_view(stack@),
                    polys_view(result@),
                    (prev_fuel - 1) as nat,
                ));
            }
        }
        fuel = fuel - 1;
    }
    proof {
        if stack.len() == 0 {
            if fuel > 0 {
                assert(spec_mult_reduce(polys_view(stack@), polys_view(result@), fuel as nat)
                    == polys_view(result@));
            } else {
                assert(polys_view(result@) + polys_view(stack@) =~= polys_view(result@));
            }
        }
    }
    if stack.len() > 0 {
        // the budget ran out: hand the rest back unreduced
        proof {
            assert(spec_mult_reduce(polys_view(stack@), polys_view(result@), fuel as nat)
                == polys_view(result@) + polys_view(stack@));
            assert(polys_view(stack@).skip(0) =~= polys_view(stack@));
        }
        let sn = stack.len();
        let mut t: usize = 0;
        while t < sn
            invariant
                sn == stack@.len(),
                0 <= t <= sn,
                polys_view(result@) + polys_view(stack@).skip(t as int) == target,
            decreases sn - t,
        {
            proof {
                assert(polys_view(stack@).skip(t as int)[0] == polys_view(stack@)[t as int]);
                assert(polys_view(stack@)[t as int] == stack@[t as int]@);
                assert(polys_view(stack@).skip(t as int).drop_first() =~= polys_view(
                    stack@,
                ).skip(t as int + 1));
            }
            let m = copy_mon(&stack[t]);
            let ghost mv = m@;
            result.push(m);
            proof {
                assert(polys_view(result@) =~= polys_view(result@.drop_last()).push(mv));
                assert(polys_view(result@) + polys_view(stack@).skip(t as int + 1) =~= target);
            }
            t = t + 1;
        }
        proof {
            assert(polys_view(stack@).skip(sn as int).len() == 0);
            assert(polys_view(result@) + polys_view(stack@).skip(sn as int) =~= polys_view(
                result@,
            ));
        }
    }
    result
}


/// Lexicographic-prefix order on monomials: compare position by position
/// over the common prefix; prefixes compare as not-greater.
pub open spec fn spec_mon_leq(a: Seq<u8>, b: Seq<u8>) -> bool
    decreases a.len() + b.len(),
{
    if a.len() == 0 || b.len() == 0 {
        true
    } else if a[0] < b[0] {
        true
    } else if a[0] > b[0] {
        false
    } else {
        spec_mon_leq(a.drop_first(), b.drop_first())
    }
}

/// Compare two monomials in the lexicographic-prefix order.
pub fn mon_leq(mon1: &Vec<u8>, mon2: &Vec<u8>) -> (r: bool)
    ensures
        r == spec_mon_leq(mon1@, mon2@),
{
    let n1 = mon1.len();
    let n2 = mon2.len();
    let mut i: usize = 0;
    proof {
        assert(mon1@.skip(0) =~= mon1@);
        assert(mon2@.skip(0) =~= mon2@);
    }
    loop
        invariant
            n1 == mon1@.len(),
            n2 == mon2@.len(),
            0 <= i <= n1,
            i <= n2,
            spec_mon_leq(mon1@, mon2@) == spec_mon_leq(mon1@.skip(i as int), mon2@.skip(i as int)),
        decreases n1 - i,
    {
        if i >= n1 || i >= n2 {
            return true;
        }
        proof {
            assert(mon1@.skip(i as int)[0] == mon1@[i as int]);
            assert(mon2@.skip(i as int)[0] == mon2@[i as int]);
            assert(mon1@.skip(i as int).drop_first() =~= mon1@.skip(i + 1));
            assert(mon2@.skip(i as int).drop_first() =~= mon2@.skip(i + 1));
        }
        let a = mon1[i];
        let b = mon2[i];
        if a < b {
            return true;
        }
        if a > b {
            return false;
        }
        i = i + 1;
    }
}

/// Whether two monomials are the same index sequence.
pub fn mon_equal(mon1: &Vec<u8>, mon2: &Vec<u8>) -> (r: bool)
    ensures
        r == (mon1@ == mon2@),
{
    let n1 = mon1.len();
    if n1 != mon2.len() {
        return false;
    }
    let mut i: usize = 0;
    while i < n1
        invariant
            n1 == mon1@.len() == mon2@.len(),
            0 <= i <= n1,
            forall|k: int| 0 <= k < i ==> mon1@[k] == mon2@[k],
        decreases n1 - i,
    {
        if mon1[i] != mon2[i] {
            return false;
        }
        i = i + 1;
    }
    proof {
        assert(mon1@ =~= mon2@);
    }
    true
}

/// Strict descending order used by the additive reduction: reversed
/// lexicographic order on the full sequences.
pub open spec fn spec_mon_gt(a: Seq<u8>, b: Seq<u8>) -> bool
    decreases a.len() + b.len(),
{
    if a.len() == 0 {
        false
    } else if b.len() == 0 {
        true
    } else if a[0] > b[0] {
        true
    } else if a[0] < b[0] {
        false
    } else {
        spec_mon_gt(a.drop_first(), b.drop_first())
    }
}

fn mon_greater(mon1: &Vec<u8>, mon2: &Vec<u8>) -> (r: bool)
    ensures
        r == spec_mon_gt(mon1@, mon2@),
{
    let n1 = mon1.len();
    let n2 = mon2.len();
    let mut i: usize = 0;
    proof {
        assert(mon1@.skip(0) =~= mon1@);
        assert(mon2@.skip(0) =~= mon2@);
    }
    loop
        invariant
            n1 == mon1@.len(),
            n2 == mon2@.len(),
            0 <= i <= n1,
            i <= n2,
            spec_mon_gt(mon1@, mon2@) == spec_mon_gt(mon1@.skip(i as int), mon2@.skip(i as int)),
        decreases n1 - i,
    {
        if i >= n1 {
            return false;
        }
        if i >= n2 {
            return true;
        }
        proof {
            assert(mon1@.skip(i as int)[0] == mon1@[i as int]);
            assert(mon2@.skip(i as int)[0] == mon2@[i as int]);
            assert(mon1@.skip(i as int).drop_first() =~= mon1@.skip(i + 1));
            assert(mon2@.skip(i as int).drop_first() =~= mon2@.skip(i + 1));
        }
        let a = mon1[i];
        let b = mon2[i];
        if a > b {
            return true;
        }
        if a < b {
            return false;
        }
        i = i + 1;
    }
}

/// Stable descending sort of a polynomial: each monomial is inserted
/// after every one it is not strictly above.
pub open spec fn spec_insert_desc(s: Seq<Seq<u8>>, m: Seq<u8>) -> Seq<Seq<u8>>
    decreases s.len(),
{
    if s.len() == 0 {
        seq![m]
    } else if spec_mon_gt(m, s[0]) {
        seq![m] + s
    } else {
        seq![s[0]] + spec_insert_desc(s.drop_first(), m)
    }
}

/// The stable descending sort of a polynomial.
pub open spec fn spec_sort_desc(s: Seq<Seq<u8>>) -> Seq<Seq<u8>>
    decreases s.len(),
{
    if s.len() == 0 {
        Seq::empty()
    } else {
        spec_insert_desc(spec_sort_desc(s.drop_last()), s.last())
    }
}

proof fn lemma_insert_desc_at_first(s: Seq<Seq<u8>>, m: Seq<u8>, pos: int)
    requires
        0 <= pos <= s.len(),
        forall|k: int| 0 <= k < pos ==> !spec_mon_gt(m, #[trigger] s[k]),
        pos < s.len() ==> spec_mon_gt(m, s[pos]),
    ensures
        spec_insert_desc(s, m) == s.insert(pos, m),
    decreases s.len(),
{
    if s.len() == 0 {
        assert(spec_insert_desc(s, m) =~= s.insert(0, m));
    } else if spec_mon_gt(m, s[0]) {
        assert(pos == 0);
        assert(seq![m] + s =~= s.insert(0, m));
    } else {
        let rest = s.drop_first();
        assert(pos >= 1);
        assert(forall|k: int| 0 <= k < pos - 1 ==> rest[k] == s[k + 1]);
        assert(pos - 1 < rest.len() ==> spec_mon_gt(m, rest[pos - 1]));
        lemma_insert_desc_at_first(rest, m, pos - 1);
        assert(seq![s[0]] + rest.insert(pos - 1, m) =~= s.insert(pos, m));
    }
}

/// The polynomial with consecutive duplicate monomials removed.
pub open spec fn spec_dedup(s: Seq<Seq<u8>>) -> Seq<Seq<u8>>
    decreases s.len(),
{
    if s.len() == 0 {
        Seq::empty()
    } else if s.len() == 1 {
        seq![s[0]]
    } else {
        let rest = spec_dedup(s.drop_last());
        if s.last() == s[s.len() - 2] {
            rest
        } else {
            rest.push(s.last())
        }
    }
}

/// Remove consecutive duplicate monomials, keeping the first of each run.
pub fn remove_consecutive_dupes(poly: Vec<Monomial>) -> (r: Vec<Monomial>)
    ensures
        polys_view(r@) == spec_dedup(polys_view(poly@)),
{
    let mut result: Vec<Monomial> = Vec::new();
    let n = poly.len();
    if n == 0 {
        proof {
            assert(polys_view(result@) =~= spec_dedup(polys_view(poly@)));
        }
        return result;
    }
    result.push(copy_mon(&poly[0]));
    proof {
        assert(polys_view(poly@).take(1) =~= seq![polys_view(poly@)[0]]);
        assert(polys_view(result@) =~= spec_dedup(polys_view(poly@).take(1)));
    }
    let mut i: usize = 1;
    while i < n
        invariant
            n == poly@.len(),
            1 <= i <= n,
            polys_view(result@) == spec_dedup(polys_view(poly@).take(i as int)),
        decreases n - i,
    {
        let ghost pv = polys_view(poly@);
        proof {
            assert(pv.take(i + 1).drop_last() =~= pv.take(i as int));
            assert(pv.take(i + 1).last() == pv[i as int]);
            assert(pv.take(i + 1)[i - 1] == pv[i - 1]);
            assert(pv[i as int] == poly@[i as int]@);
            assert(pv[i - 1] == poly@[i - 1]@);
        }
        if !mon_equal(&poly[i - 1], &poly[i]) {
            result.push(copy_mon(&poly[i]));
            proof {
                assert(polys_view(result@) =~= spec_dedup(pv.take(i as int)).push(pv[i as int]));
            }
        }
        i = i + 1;
    }
    proof {
        assert(polys_view(poly@).take(n as int) =~= polys_view(poly@));
    }
    result
}

/// Sort a polynomial into descending order and remove the duplicate
/// monomials, which cancel over the field of two elements.
pub fn additively_reduce_poly(poly: Vec<Monomial>) -> (r: Vec<Monomial>)
    ensures
        polys_view(r@) == spec_dedup(spec_sort_desc(polys_view(poly@))),
{
    let mut src = poly;
    let mut out: Vec<Monomial> = Vec::new();
    let ghost orig = polys_view(src@);
    let total = src.len();
    proof {
        assert(orig.len() == total as int);
    }
    let mut taken: usize = 0;
    while src.len() > 0
        invariant
            taken + src@.len() == orig.len(),
            orig.len() <= usize::MAX,
            polys_view(src@) == orig.skip(taken as int),
            polys_view(out@) == spec_sort_desc(orig.take(taken as int)),
        decreases src@.len(),
    {
        let ghost sv = polys_view(src@);
        let m = src.remove(0);
        let ghost mv = m@;
        proof {
            assert(sv[0] == mv);
            assert(polys_view(src@) =~= sv.drop_first());
            assert(sv.drop_first() =~= orig.skip(taken + 1));
        }
        let n = out.len();
        let mut pos: usize = 0;
        while pos < n
            invariant_except_break
                n == out@.len(),
                0 <= pos <= n,
                forall|k: int| 0 <= k < pos ==> !spec_mon_gt(m@, #[trigger] polys_view(out@)[k]),
            ensures
                0 <= pos <= n,
                n == out@.len(),
                forall|k: int| 0 <= k < pos ==> !spec_mon_gt(m@, #[trigger] polys_view(out@)[k]),
                pos < n ==> spec_mon_gt(m@, polys_view(out@)[pos as int]),
            decreases n - pos,
        {
            proof {
                assert(polys_view(out@)[pos as int] == out@[pos as int]@);
            }
            if mon_greater(&m, &out[pos]) {
                break;
            }
            pos = pos + 1;
        }
        let ghost out_before = polys_view(out@);
        proof {
            lemma_insert_desc_at_first(out_before, mv, pos as int);
        }
        out.insert(pos, m);
        proof {
            assert(polys_view(out@) =~= out_before.insert(pos as int, mv));
            let t2 = orig.take(taken + 1);
            assert(t2.drop_last() =~= orig.take(taken as int));
            assert(t2.last() == orig[taken as int]);
            assert(orig[taken as int] == mv);
        }
        taken = taken + 1;
    }
    proof {
        assert(orig.take(taken as int) =~= orig);
    }
    remove_consecutive_dupes(out)
}

/// The Leibniz terms of one monomial: for each position, each boundary
/// term of that index spliced in its place.
pub open spec fn spec_leibniz_mon(mon: Seq<u8>) -> Seq<Seq<u8>>
    decreases mon.len(),
{
    spec_leibniz_upto(mon, mon.len() as int)
}

/// The Leibniz terms of the first `upto` positions.
pub open spec fn spec_leibniz_upto(mon: Seq<u8>, upto: int) -> Seq<Seq<u8>>
    decreases upto,
{
    if upto <= 0 {
        Seq::empty()
    } else {
        spec_leibniz_upto(mon, upto - 1) + spec_leibniz_at(
            mon,
            upto - 1,
            spec_differential_gen(mon[upto - 1]).len() as int,
        )
    }
}

/// The first `count` Leibniz terms at one position.
pub open spec fn spec_leibniz_at(mon: Seq<u8>, p: int, count: int) -> Seq<Seq<u8>>
    decreases count,
{
    if count <= 0 {
        Seq::empty()
    } else {
        spec_leibniz_at(mon, p, count - 1).push(
            mon.take(p) + spec_differential_gen(mon[p])[count - 1] + mon.skip(p + 1),
        )
    }
}

fn splice_one(mon: &Vec<u8>, p: usize, nm: &Vec<u8>) -> (r: Vec<u8>)
    requires
        p < mon@.len(),
    ensures
        r@ == mon@.take(p as int) + nm@ + mon@.skip(p + 1),
{
    let mut r: Vec<u8> = Vec::new();
    let mut i: usize = 0;
    while i < p
        invariant
            p < mon@.len(),
            0 <= i <= p,
            r@ == mon@.take(i as int),
        decreases p - i,
    {
        r.push(mon[i]);
        proof {
            assert(r@ =~= mon@.take(i + 1));
        }
        i = i + 1;
    }
    let nn = nm.len();
    let mut q: usize = 0;
    while q < nn
        invariant
            nn == nm@.len(),
            0 <= q <= nn,
            r@ == mon@.take(p as int) + nm@.take(q as int),
        decreases nn - q,
    {
        r.push(nm[q]);
        proof {
            assert(r@ =~= mon@.take(p as int) + nm@.take(q + 1));
        }
        q = q + 1;
    }
    proof {
        assert(nm@.take(nn as int) =~= nm@);
    }
    let ml = mon.len();
    let mut t: usize = p + 1;
    while t < ml
        invariant
            ml == mon@.len(),
            p + 1 <= t <= ml,
            r@ == mon@.take(p as int) + nm@ + mon@.skip(p + 1).take(t - (p + 1)),
        decreases ml - t,
    {
        proof {
            assert(mon@.skip(p + 1)[(t - (p + 1)) as int] == mon@[t as int]);
        }
        r.push(mon[t]);
        proof {
            assert(r@ =~= mon@.take(p as int) + nm@ + mon@.skip(p + 1).take(t + 1 - (p + 1)));
        }
        t = t + 1;
    }
    proof {
        assert(mon@.skip(p + 1).take(ml - (p + 1)) =~= mon@.skip(p + 1));
    }
    r
}

/// The Leibniz rule on one monomial.
pub fn leibniz_mon(mon: &Vec<u8>) -> (r: Vec<Monomial>)
    ensures
        polys_view(r@) == spec_leibniz_mon(mon@),
{
    let mut result: Vec<Monomial> = Vec::new();
    let n = mon.len();
    let mut p: usize = 0;
    while p < n
        invariant
            n == mon@.len(),
            0 <= p <= n,
            polys_view(result@) == spec_leibniz_upto(mon@, p as int),
        decreases n - p,
    {
        let terms = differential_gen(mon[p]);
        let tn = terms.len();
        let mut q: usize = 0;
        proof {
            assert(polys_view(result@) + spec_leibniz_at(mon@, p as int, 0) =~= polys_view(
                result@,
            ));
        }
        let ghost base = polys_view(result@);
        while q < tn
            invariant
                n == mon@.len(),
                0 <= p < n,
                tn == terms@.len(),
                0 <= q <= tn,
                polys_view(terms@) == spec_differential_gen(mon@[p as int]),
                polys_view(result@) == base + spec_leibniz_at(mon@, p as int, q as int),
            decreases tn - q,
        {
            let nm = splice_one(mon, p, &terms[q]);
            let ghost nmv = nm@;
            let ghost nmfull = nm;
            let ghost rb = result@;
            result.push(nm);
            proof {
                lemma_polys_view_push(rb, nmfull);
                assert(nmv =~= mon@.take(p as int) + polys_view(terms@)[q as int] + mon@.skip(
                    p + 1,
                ));
                assert(polys_view(rb).push(nmv) =~= base + spec_leibniz_at(
                    mon@,
                    p as int,
                    q as int + 1,
                ));
            }
            q = q + 1;
        }
        proof {
            assert(polys_view(result@) =~= spec_leibniz_upto(mon@, p as int + 1));
        }
        p = p + 1;
    }
    result
}

/// The Leibniz terms of a whole polynomial, in order.
pub open spec fn spec_leibniz_poly(poly: Seq<Seq<u8>>) -> Seq<Seq<u8>>
    decreases poly.len(),
{
    if poly.len() == 0 {
        Seq::empty()
    } else {
        spec_leibniz_poly(poly.drop_last()) + spec_leibniz_mon(poly.last())
    }
}

/// The Leibniz rule on a polynomial.
pub fn leibniz_poly(poly: &Vec<Monomial>) -> (r: Vec<Monomial>)
    ensures
        polys_view(r@) == spec_leibniz_poly(polys_view(poly@)),
{
    let mut result: Vec<Monomial> = Vec::new();
    let n = poly.len();
    let mut i: usize = 0;
    proof {
        assert(polys_view(result@) =~= spec_leibniz_poly(polys_view(poly@).take(0)));
    }
    while i < n
        invariant
            n == poly@.len(),
            0 <= i <= n,
            polys_view(result@) == spec_leibniz_poly(polys_view(poly@).take(i as int)),
        decreases n - i,
    {
        let terms = leibniz_mon(&poly[i]);
        let tn = terms.len();
        let mut q: usize = 0;
        let ghost base = polys_view(result@);
        while q < tn
            invariant
                tn == terms@.len(),
                0 <= q <= tn,
                n == poly@.len(),
                0 <= i < n,
                polys_view(terms@) == spec_leibniz_mon(poly@[i as int]@),
                polys_view(result@) == base + polys_view(terms@).take(q as int),
            decreases tn - q,
        {
            proof {
                assert(polys_view(terms@)[q as int] == terms@[q as int]@);
            }
            let cm = copy_mon(&terms[q]);
            let ghost cmfull = cm;
            let ghost rb = result@;
            result.push(cm);
            proof {
                lemma_polys_view_push(rb, cmfull);
                assert(polys_view(rb).push(cmfull@) =~= base + polys_view(terms@).take(
                    q as int + 1,
                ));
            }
            q = q + 1;
        }
        proof {
            assert(polys_view(terms@).take(tn as int) =~= polys_view(terms@));
            let pv = polys_view(poly@);
            assert(pv.take(i + 1).drop_last() =~= pv.take(i as int));
            assert(pv.take(i + 1).last() == pv[i as int]);
            assert(pv[i as int] == poly@[i as int]@);
            assert(polys_view(result@) =~= spec_leibniz_poly(pv.take(i + 1)));
        }
        i = i + 1;
    }
    proof {
        assert(polys_view(poly@).take(n as int) =~= polys_view(poly@));
    }
    result
}

/// Fully reduce a polynomial: rewrite to admissible monomials, then
/// cancel duplicates additively.
pub fn reduce_poly(poly: Vec<Monomial>) -> (r: Vec<Monomial>)
    ensures
        polys_view(r@) == spec_dedup(
            spec_sort_desc(
                spec_mult_reduce(polys_view(poly@), Seq::empty(), REDUCE_FUEL as nat),
            ),
        ),
{
    additively_reduce_poly(mult_reduce_poly(poly))
}

/// The differential of a polynomial: the Leibniz terms, fully reduced.
pub fn differential_poly(poly: Vec<Monomial>) -> (r: Vec<Monomial>)
    ensures
        polys_view(r@) == spec_dedup(
            spec_sort_desc(
                spec_mult_reduce(
                    spec_leibniz_poly(polys_view(poly@)),
                    Seq::empty(),
                    REDUCE_FUEL as nat,
                ),
            ),
        ),
{
    let lb = leibniz_poly(&poly);
    reduce_poly(lb)
}

/// All pairwise concatenations of two polynomials, in order.
pub open spec fn spec_concat_polys(p1: Seq<Seq<u8>>, p2: Seq<Seq<u8>>) -> Seq<Seq<u8>>
    decreases p1.len(),
{
    if p1.len() == 0 {
        Seq::empty()
    } else {
        spec_concat_polys(p1.drop_last(), p2) + spec_concat_row(p1.last(), p2, p2.len() as int)
    }
}

/// One monomial prepended to the first `count` of a polynomial.
pub open spec fn spec_concat_row(m: Seq<u8>, p2: Seq<Seq<u8>>, count: int) -> Seq<Seq<u8>>
    decreases count,
{
    if count <= 0 {
        Seq::empty()
    } else {
        spec_concat_row(m, p2, count - 1).push(m + p2[count - 1])
    }
}

fn concat_mons(m1: &Vec<u8>, m2: &Vec<u8>) -> (r: Vec<u8>)
    ensures
        r@ == m1@ + m2@,
{
    let mut r = copy_mon(m1);
    let n = m2.len();
    let mut i: usize = 0;
    while i < n
        invariant
            n == m2@.len(),
            0 <= i <= n,
            r@ == m1@ + m2@.take(i as int),
        decreases n - i,
    {
        r.push(m2[i]);
        proof {
            assert(r@ =~= m1@ + m2@.take(i + 1));
        }
        i = i + 1;
    }
    proof {
        assert(m2@.take(n as int) =~= m2@);
        assert(m1@ + m2@.take(n as int) =~= m1@ + m2@);
    }
    r
}

/// Concatenate every monomial of the first polynomial with every one of
/// the second.
pub fn concatenate_polys(poly1: &Vec<Monomial>, poly2: &Vec<Monomial>) -> (r: Vec<Monomial>)
    ensures
        polys_view(r@) == spec_concat_polys(polys_view(poly1@), polys_view(poly2@)),
{
    let mut result: Vec<Monomial> = Vec::new();
    let n1 = poly1.len();
    let n2 = poly2.len();
    let mut i: usize = 0;
    proof {
        assert(polys_view(result@) =~= spec_concat_polys(
            polys_view(poly1@).take(0),
            polys_view(poly2@),
        ));
    }
    while i < n1
        invariant
            n1 == poly1@.len(),
            n2 == poly2@.len(),
            0 <= i <= n1,
            polys_view(result@) == spec_concat_polys(
                polys_view(poly1@).take(i as int),
                polys_view(poly2@),
            ),
        decreases n1 - i,
    {
        let ghost base = polys_view(result@);
        let mut j: usize = 0;
        while j < n2
            invariant
                n1 == poly1@.len(),
                n2 == poly2@.len(),
                0 <= i < n1,
                0 <= j <= n2,
                polys_view(result@) == base + spec_concat_row(
                    poly1@[i as int]@,
                    polys_view(poly2@),
                    j as int,
                ),
            decreases n2 - j,
        {
            let nm = concat_mons(&poly1[i], &poly2[j]);
            let ghost nmv = nm@;
            let ghost nmfull = nm;
            let ghost rb = result@;
            result.push(nm);
            proof {
                lemma_polys_view_push(rb, nmfull);
                assert(polys_view(poly2@)[j as int] == poly2@[j as int]@);
                assert(polys_view(rb).push(nmv) =~= base + spec_concat_row(
                    poly1@[i as int]@,
                    polys_view(poly2@),
                    j as int + 1,
                ));
            }
            j = j + 1;
        }
        proof {
            let pv = polys_view(poly1@);
            assert(pv.take(i + 1).drop_last() =~= pv.take(i as int));
            assert(pv.take(i + 1).last() == pv[i as int]);
            assert(pv[i as int] == poly1@[i as int]@);
            assert(polys_view(result@) =~= spec_concat_polys(
                pv.take(i + 1),
                polys_view(poly2@),
            ));
        }
        i = i + 1;
    }
    proof {
        assert(polys_view(poly1@).take(n1 as int) =~= polys_view(poly1@));
    }
    result
}

/// Prepend one monomial to every monomial of a polynomial.
pub fn concatenate_mon_to_poly(mon: &Vec<u8>, poly: &Vec<Monomial>) -> (r: Vec<Monomial>)
    ensures
        polys_view(r@) == spec_concat_row(mon@, polys_view(poly@), polys_view(poly@).len() as int),
{
    let mut result: Vec<Monomial> = Vec::new();
    let n = poly.len();
    let mut j: usize = 0;
    while j < n
        invariant
            n == poly@.len(),
            0 <= j <= n,
            polys_view(result@) == spec_concat_row(mon@, polys_view(poly@), j as int),
        decreases n - j,
    {
        let nm = concat_mons(mon, &poly[j]);
        result.push(nm);
        proof {
            assert(polys_view(poly@)[j as int] == poly@[j as int]@);
            assert(polys_view(result@) =~= spec_concat_row(
                mon@,
                polys_view(poly@),
                j as int + 1,
            ));
        }
        j = j + 1;
    }
    result
}


} // verus!
