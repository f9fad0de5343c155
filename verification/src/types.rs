use vstd::prelude::*;

verus! {

use vstd::multiset::Multiset;

/// The interpretive category under which a replay is carried out.
#[derive(Clone, Copy, Debug, PartialEq, Eq, Structural)]
pub enum Category {
    Synthetic,
    Algebraic,
    Classical,
}

/// Whether a relation takes part in a replay (`Real`) or is a placeholder
/// kept only for bookkeeping (`Fake`).
#[derive(Clone, Copy, Debug, PartialEq, Eq, Structural)]
pub enum Kind {
    Real,
    Fake,
}

/// Torsion state of a generator: torsion-free (no recorded value), exactly
/// zero (killed), or a nonzero torsion value.  The torsion-free and killed
/// states obey different propagation rules, so they are kept as distinct
/// tags rather than folded into one optional integer.
#[derive(Clone, Copy, Debug, PartialEq, Eq, Structural)]
pub enum Torsion {
    Free,
    Zero,
    Val(i32),
}

impl Torsion {
    /// Well-formed torsion never writes the killed state through `Val`.
    pub open spec fn wf(self) -> bool {
        match self {
            Torsion::Val(k) => k != 0,
            _ => true,
        }
    }

    /// The torsion that stands for the integer value `k`: zero means killed.
    pub open spec fn spec_of_value(k: i32) -> Torsion {
        if k == 0 {
            Torsion::Zero
        } else {
            Torsion::Val(k)
        }
    }

    /// Build the torsion that stands for the integer value `k`.
    pub fn of_value(k: i32) -> (t: Torsion)
        ensures
            t == Torsion::spec_of_value(k),
            t.wf(),
    {
        if k == 0 {
            Torsion::Zero
        } else {
            Torsion::Val(k)
        }
    }

    /// True of the killed state.
    pub fn is_zero(&self) -> (r: bool)
        ensures
            r == (*self == Torsion::Zero),
    {
        match self {
            Torsion::Zero => true,
            _ => false,
        }
    }

    /// True of the torsion-free state.
    pub fn is_free(&self) -> (r: bool)
        ensures
            r == (*self == Torsion::Free),
    {
        match self {
            Torsion::Free => true,
            _ => false,
        }
    }
}

/// A named element of the spectral sequence at position (`x`, `y`) with its
/// Adams filtration, recorded torsion, and the induced name that the
/// structural map outside the core assigns it.
#[derive(Clone, Debug, PartialEq, Eq)]
pub struct Generator {
    pub name: String,
    pub x: i32,
    pub y: i32,
    pub adams_filtration: i32,
    pub torsion: Torsion,
    pub induced_name: String,
}

impl Generator {
    /// A fresh generator: torsion-free, its own name as induced name.
    pub fn new(name: String, x: i32, y: i32, adams_filtration: i32) -> (g: Generator)
        ensures
            g.name@ == name@,
            g.x == x,
            g.y == y,
            g.adams_filtration == adams_filtration,
            g.torsion == Torsion::Free,
            g.induced_name@ == name@,
    {
        let induced_name = name.clone();
        Generator { name, x, y, adams_filtration, torsion: Torsion::Free, induced_name }
    }
}

/// A directed relation `from -> to` that fires on page `d` with
/// filtration-offset parameter `coeff`.  `synthetic` marks relations that
/// were recorded (or inferred) for the synthetic interpretation rather than
/// lifted from the algebraic tables.
#[derive(Clone, Debug, PartialEq, Eq)]
pub struct Differential {
    pub from: String,
    pub to: String,
    pub coeff: i32,
    pub d: i32,
    pub kind: Kind,
    pub synthetic: bool,
    pub justification: Option<String>,
}

/// A tau-multiplication relation `from -> to`, applied only during the
/// distinguished final pass of a synthetic replay.
#[derive(Clone, Debug, PartialEq, Eq)]
pub struct Multiplication {
    pub from: String,
    pub to: String,
    pub kind: Kind,
}

/// The strict total order that the differential list is kept in: ascending
/// by page `d`, ties broken by descending `coeff`.
pub open spec fn diff_before(a: Differential, b: Differential) -> bool {
    a.d < b.d || (a.d == b.d && a.coeff > b.coeff)
}

/// Sortedness of a differential list under `diff_before`.
pub open spec fn diffs_sorted(s: Seq<Differential>) -> bool {
    forall|i: int, j: int| 0 <= i < j < s.len() ==> !diff_before(#[trigger] s[j], #[trigger] s[i])
}

/// Where an ordered insert places `d`: before the first element that `d`
/// strictly precedes, after every element it does not.
pub open spec fn spec_insert_diff(s: Seq<Differential>, d: Differential) -> Seq<Differential>
    decreases s.len(),
{
    if s.len() == 0 {
        seq![d]
    } else if diff_before(d, s[0]) {
        seq![d] + s
    } else {
        seq![s[0]] + spec_insert_diff(s.drop_first(), d)
    }
}

/// The multiset of a one-element sequence.
proof fn lemma_singleton_multiset(d: Differential)
    ensures
        seq![d].to_multiset() =~= Multiset::<Differential>::empty().insert(d),
{
    assert(seq![d] =~= Seq::<Differential>::empty().push(d));
    Seq::<Differential>::empty().to_multiset_ensures();
    assert(Seq::<Differential>::empty().to_multiset().len() == 0);
    assert(Seq::<Differential>::empty().to_multiset() =~= Multiset::<Differential>::empty());
}

/// Ordered insertion keeps every element of the list and adds the new one.
pub proof fn lemma_insert_diff_elements(s: Seq<Differential>, d: Differential)
    ensures
        spec_insert_diff(s, d).len() == s.len() + 1,
        spec_insert_diff(s, d).to_multiset() =~= s.to_multiset().insert(d),
    decreases s.len(),
{
    if s.len() == 0 {
        assert(spec_insert_diff(s, d) =~= seq![d]);
        lemma_singleton_multiset(d);
        s.to_multiset_ensures();
        assert(s.to_multiset().len() == 0);
        assert(s.to_multiset() =~= Multiset::<Differential>::empty());
    } else if diff_before(d, s[0]) {
        vstd::seq_lib::lemma_multiset_commutative(seq![d], s);
        lemma_singleton_multiset(d);
        assert(Multiset::<Differential>::empty().insert(d).add(s.to_multiset()) =~= s.to_multiset().insert(d));
    } else {
        let rest = s.drop_first();
        lemma_insert_diff_elements(rest, d);
        let rr = spec_insert_diff(rest, d);
        vstd::seq_lib::lemma_multiset_commutative(seq![s[0]], rr);
        lemma_singleton_multiset(s[0]);
        assert(s =~= seq![s[0]] + rest);
        vstd::seq_lib::lemma_multiset_commutative(seq![s[0]], rest);
        assert(spec_insert_diff(s, d).to_multiset() =~= rest.to_multiset().insert(d).insert(s[0]));
        assert(s.to_multiset() =~= rest.to_multiset().insert(s[0]));
        assert(rest.to_multiset().insert(d).insert(s[0]) =~= rest.to_multiset().insert(s[0]).insert(d));
    }
}

/// Every element of an ordered insert is the inserted one or one of the
/// original list.
proof fn lemma_insert_diff_membership(s: Seq<Differential>, d: Differential)
    ensures
        forall|k: int|
            0 <= k < spec_insert_diff(s, d).len()
                ==> #[trigger] spec_insert_diff(s, d)[k] == d || s.contains(spec_insert_diff(s, d)[k]),
    decreases s.len(),
{
    let r = spec_insert_diff(s, d);
    if s.len() == 0 {
    } else if diff_before(d, s[0]) {
        assert forall|k: int| 0 <= k < r.len() implies r[k] == d || s.contains(r[k]) by {
            if k > 0 {
                assert(r[k] == s[k - 1]);
            }
        }
    } else {
        let rest = s.drop_first();
        lemma_insert_diff_membership(rest, d);
        let rr = spec_insert_diff(rest, d);
        assert forall|k: int| 0 <= k < r.len() implies r[k] == d || s.contains(r[k]) by {
            if k == 0 {
                assert(r[0] == s[0] && s.contains(s[0]));
            } else {
                assert(r[k] == rr[k - 1]);
                if rr[k - 1] != d {
                    let idx = choose|idx: int| 0 <= idx < rest.len() && rest[idx] == rr[k - 1];
                    assert(s[idx + 1] == rest[idx]);
                }
            }
        }
    }
}

/// Differential insertion preserves the total order: inserting into a list
/// that is sorted ascending by `d` with ties descending by `coeff` yields a
/// list that is sorted the same way.  Applied after each insert in turn,
/// this keeps the relation list sorted across any sequence of inserts.
pub proof fn lemma_insert_diff_sorted(s: Seq<Differential>, d: Differential)
    requires
        diffs_sorted(s),
    ensures
        diffs_sorted(spec_insert_diff(s, d)),
    decreases s.len(),
{
    if s.len() == 0 {
    } else if diff_before(d, s[0]) {
        let r = seq![d] + s;
        assert forall|i: int, j: int| 0 <= i < j < r.len() implies !diff_before(r[j], r[i]) by {
            if i == 0 {
                assert(r[j] == s[j - 1]);
                if j == 1 {
                } else {
                    assert(!diff_before(s[j - 1], s[0]));
                }
            } else {
                assert(r[i] == s[i - 1] && r[j] == s[j - 1]);
            }
        }
    } else {
        let rest = s.drop_first();
        assert(diffs_sorted(rest)) by {
            assert(forall|i: int, j: int| 0 <= i < j < rest.len() ==> rest[i] == s[i + 1] && rest[j] == s[j + 1]);
        }
        lemma_insert_diff_sorted(rest, d);
        lemma_insert_diff_elements(rest, d);
        lemma_insert_diff_membership(rest, d);
        let rr = spec_insert_diff(rest, d);
        let r = seq![s[0]] + rr;
        // every element of rr is either d or an element of rest, and s[0]
        // precedes (or ties) all of them
        assert forall|k: int| 0 <= k < rr.len() implies !diff_before(rr[k], s[0]) by {
            if rr[k] == d {
                assert(!diff_before(d, s[0]));
            } else {
                assert(rest.contains(rr[k]));
                let idx = choose|idx: int| 0 <= idx < rest.len() && rest[idx] == rr[k];
                assert(s[idx + 1] == rest[idx]);
                assert(!diff_before(s[idx + 1], s[0]));
            }
        }
        assert forall|i: int, j: int| 0 <= i < j < r.len() implies !diff_before(r[j], r[i]) by {
            if i == 0 {
                assert(r[j] == rr[j - 1]);
            } else {
                assert(r[i] == rr[i - 1] && r[j] == rr[j - 1]);
            }
        }
    }
}

/// The static graph: generators, page-ordered differentials, tau
/// multiplications, and the name-lookup index that mirrors the generator
/// list.
#[derive(Clone, Debug)]
pub struct SyntheticEHP {
    pub generators: Vec<Generator>,
    pub differentials: Vec<Differential>,
    pub multiplications: Vec<Multiplication>,
    pub find_map: Vec<(String, usize)>,
}

impl SyntheticEHP {
    /// No two generators share a name.
    pub open spec fn names_unique(self) -> bool {
        forall|i: int, j: int|
            0 <= i < j < self.generators@.len()
                ==> #[trigger] self.generators@[i].name@ != #[trigger] self.generators@[j].name@
    }

    /// The lookup index exactly mirrors the generator list.  It must be
    /// rebuilt after any append or reorder before a lookup observes the
    /// new state.
    pub open spec fn index_ok(self) -> bool {
        &&& self.find_map@.len() == self.generators@.len()
        &&& forall|i: int|
            0 <= i < self.find_map@.len()
                ==> (#[trigger] self.find_map@[i]).0@ == self.generators@[i].name@
                    && self.find_map@[i].1 == i
    }

    /// No generator records the killed state through `Val`.
    pub open spec fn torsion_wf(self) -> bool {
        forall|i: int|
            0 <= i < self.generators@.len() ==> (#[trigger] self.generators@[i]).torsion.wf()
    }

    /// The differential list is in its page order.
    pub open spec fn diffs_ordered(self) -> bool {
        diffs_sorted(self.differentials@)
    }

    /// Well-formedness of a store on which lookups and ordered inserts are
    /// performed.
    pub open spec fn wf(self) -> bool {
        self.names_unique() && self.index_ok() && self.torsion_wf() && self.diffs_ordered()
    }

    /// Whether some generator of the store carries `name`.
    pub open spec fn has_name(self, name: Seq<char>) -> bool {
        exists|i: int| 0 <= i < self.generators@.len() && #[trigger] self.generators@[i].name@ == name
    }

    /// A store with nothing in it.
    pub fn empty() -> (s: SyntheticEHP)
        ensures
            s.generators@.len() == 0,
            s.differentials@.len() == 0,
            s.multiplications@.len() == 0,
            s.find_map@.len() == 0,
            s.wf(),
    {
        SyntheticEHP {
            generators: Vec::new(),
            differentials: Vec::new(),
            multiplications: Vec::new(),
            find_map: Vec::new(),
        }
    }

    /// Rebuild the lookup index from the generator list.
    pub fn build_find_map(&mut self)
        ensures
            final(self).generators == old(self).generators,
            final(self).differentials == old(self).differentials,
            final(self).multiplications == old(self).multiplications,
            final(self).index_ok(),
    {
        let mut m: Vec<(String, usize)> = Vec::new();
        let n = self.generators.len();
        for i in 0..n
            invariant
                n == self.generators@.len(),
                m@.len() == i,
                forall|k: int|
                    0 <= k < i
                        ==> (#[trigger] m@[k]).0@ == self.generators@[k].name@ && m@[k].1 == k,
        {
            m.push((self.generators[i].name.clone(), i));
        }
        self.find_map = m;
    }

    /// Ordered insert of a differential, preserving the (page, -coeff)
    /// total order of the list.
    pub fn insert_diff(&mut self, diff: Differential)
        ensures
            final(self).differentials@ == spec_insert_diff(old(self).differentials@, diff),
            old(self).diffs_ordered() ==> final(self).diffs_ordered(),
            final(self).generators == old(self).generators,
            final(self).multiplications == old(self).multiplications,
            final(self).find_map == old(self).find_map,
    {
        let n = self.differentials.len();
        let mut pos: usize = 0;
        while pos < n
            invariant_except_break
                n == self.differentials@.len(),
                0 <= pos <= n,
                forall|k: int| 0 <= k < pos ==> !diff_before(diff, #[trigger] self.differentials@[k]),
            ensures
                n == self.differentials@.len(),
                0 <= pos <= n,
                forall|k: int| 0 <= k < pos ==> !diff_before(diff, #[trigger] self.differentials@[k]),
                pos < n ==> diff_before(diff, self.differentials@[pos as int]),
            decreases n - pos,
        {
            let e = &self.differentials[pos];
            if diff.d < e.d || (diff.d == e.d && diff.coeff > e.coeff) {
                break;
            }
            pos = pos + 1;
        }
        proof {
            lemma_insert_diff_at_first(self.differentials@, diff, pos as int);
            if self.diffs_ordered() {
                lemma_insert_diff_sorted(self.differentials@, diff);
            }
        }
        self.differentials.insert(pos, diff);
    }

    /// Name lookup, total over the generators the store holds.  Valid only
    /// while the index mirrors the list.
    pub fn find(&self, name: &String) -> (r: Option<&Generator>)
        requires
            self.index_ok(),
        ensures
            match r {
                Some(g) => exists|i: int|
                    0 <= i < self.generators@.len() && #[trigger] self.generators@[i].name@ == name@
                        && *g == self.generators@[i],
                None => !self.has_name(name@),
            },
    {
        let n = self.find_map.len();
        let mut i: usize = 0;
        while i < n
            invariant
                self.index_ok(),
                n == self.find_map@.len(),
                0 <= i <= n,
                forall|k: int| 0 <= k < i ==> #[trigger] self.generators@[k].name@ != name@,
            decreases n - i,
        {
            if self.find_map[i].0 == *name {
                let idx = self.find_map[i].1;
                return Some(&self.generators[idx]);
            }
            i = i + 1;
        }
        None
    }

    /// Mutable name lookup.  The caller may rewrite the generator it is
    /// handed; rebuilding the index afterwards is the caller's duty if the
    /// name field is among what changes.
    pub fn find_mut(&mut self, name: &String) -> (r: Option<&mut Generator>)
        requires
            old(self).index_ok(),
        ensures
            match r {
                Some(g) => exists|i: int|
                    {
                        &&& 0 <= i < old(self).generators@.len()
                        &&& old(self).generators@[i].name@ == name@
                        &&& *g == old(self).generators@[i]
                        &&& final(self).generators@ == old(self).generators@.update(
                            i,
                            *final(g),
                        )
                    },
                None => {
                    &&& *final(self) == *old(self)
                    &&& !old(self).has_name(name@)
                },
            },
            final(self).differentials == old(self).differentials,
            final(self).multiplications == old(self).multiplications,
            final(self).find_map == old(self).find_map,
    {
        let n = self.find_map.len();
        let mut i: usize = 0;
        while i < n
            invariant
                old(self).index_ok(),
                *self == *old(self),
                n == self.find_map@.len(),
                0 <= i <= n,
                forall|k: int| 0 <= k < i ==> #[trigger] self.generators@[k].name@ != name@,
            decreases n - i,
        {
            if self.find_map[i].0 == *name {
                let idx = self.find_map[i].1;
                let g = &mut self.generators[idx];
                return Some(g);
            }
            i = i + 1;
        }
        None
    }
}

/// The ordered-insert position that a left-to-right scan finds is the one
/// the recursive insert definition uses.
pub(crate) proof fn lemma_insert_diff_at_first(s: Seq<Differential>, d: Differential, pos: int)
    requires
        0 <= pos <= s.len(),
        forall|k: int| 0 <= k < pos ==> !diff_before(d, #[trigger] s[k]),
        pos < s.len() ==> diff_before(d, s[pos]),
    ensures
        spec_insert_diff(s, d) == s.insert(pos, d),
    decreases s.len(),
{
    if s.len() == 0 {
        assert(spec_insert_diff(s, d) =~= s.insert(0, d));
    } else if diff_before(d, s[0]) {
        assert(pos == 0);
        assert(seq![d] + s =~= s.insert(0, d));
    } else {
        let rest = s.drop_first();
        assert(pos >= 1);
        assert(forall|k: int| 0 <= k < pos - 1 ==> rest[k] == s[k + 1]);
        assert(pos - 1 < rest.len() ==> diff_before(d, rest[pos - 1]));
        lemma_insert_diff_at_first(rest, d, pos - 1);
        assert(seq![s[0]] + rest.insert(pos - 1, d) =~= s.insert(pos, d));
    }
}


/// The mathematical value of a `Generator`.
#[verifier::ext_equal]
pub struct GenModel {
    pub name: Seq<char>,
    pub x: i32,
    pub y: i32,
    pub adams_filtration: i32,
    pub torsion: Torsion,
    pub induced_name: Seq<char>,
}

impl View for Generator {
    type V = GenModel;

    open spec fn view(&self) -> GenModel {
        GenModel {
            name: self.name@,
            x: self.x,
            y: self.y,
            adams_filtration: self.adams_filtration,
            torsion: self.torsion,
            induced_name: self.induced_name@,
        }
    }
}

/// The mathematical value of a `Differential`.
#[verifier::ext_equal]
pub struct DiffModel {
    pub from: Seq<char>,
    pub to: Seq<char>,
    pub coeff: i32,
    pub d: i32,
    pub kind: Kind,
    pub synthetic: bool,
    pub justification: Option<Seq<char>>,
}

impl View for Differential {
    type V = DiffModel;

    open spec fn view(&self) -> DiffModel {
        DiffModel {
            from: self.from@,
            to: self.to@,
            coeff: self.coeff,
            d: self.d,
            kind: self.kind,
            synthetic: self.synthetic,
            justification: match self.justification {
                Some(ref j) => Some(j@),
                None => None,
            },
        }
    }
}

/// The mathematical value of a `Multiplication`.
#[verifier::ext_equal]
pub struct MultModel {
    pub from: Seq<char>,
    pub to: Seq<char>,
    pub kind: Kind,
}

impl View for Multiplication {
    type V = MultModel;

    open spec fn view(&self) -> MultModel {
        MultModel { from: self.from@, to: self.to@, kind: self.kind }
    }
}

/// The values of a generator list.
pub open spec fn gens_view(v: Seq<Generator>) -> Seq<GenModel> {
    v.map_values(|g: Generator| g@)
}

/// The values of a differential list.
pub open spec fn diffs_view(v: Seq<Differential>) -> Seq<DiffModel> {
    v.map_values(|d: Differential| d@)
}

/// The values of a multiplication list.
pub open spec fn mults_view(v: Seq<Multiplication>) -> Seq<MultModel> {
    v.map_values(|m: Multiplication| m@)
}



/// Viewing distributes over appending a generator.
pub proof fn lemma_gens_view_push(v: Seq<Generator>, g: Generator)
    ensures
        gens_view(v.push(g)) == gens_view(v).push(g@),
{
    assert(gens_view(v.push(g)) =~= gens_view(v).push(g@));
}

/// Viewing distributes over appending a differential.
pub proof fn lemma_diffs_view_push(v: Seq<Differential>, d: Differential)
    ensures
        diffs_view(v.push(d)) == diffs_view(v).push(d@),
{
    assert(diffs_view(v.push(d)) =~= diffs_view(v).push(d@));
}

/// Viewing distributes over appending a multiplication.
pub proof fn lemma_mults_view_push(v: Seq<Multiplication>, m: Multiplication)
    ensures
        mults_view(v.push(m)) == mults_view(v).push(m@),
{
    assert(mults_view(v.push(m)) =~= mults_view(v).push(m@));
}



/// Viewing distributes over inserting a generator.
pub proof fn lemma_gens_view_insert(v: Seq<Generator>, i: int, g: Generator)
    requires
        0 <= i <= v.len(),
    ensures
        gens_view(v.insert(i, g)) == gens_view(v).insert(i, g@),
{
    assert(gens_view(v.insert(i, g)) =~= gens_view(v).insert(i, g@));
}

/// Viewing distributes over inserting a differential.
pub proof fn lemma_diffs_view_insert(v: Seq<Differential>, i: int, d: Differential)
    requires
        0 <= i <= v.len(),
    ensures
        diffs_view(v.insert(i, d)) == diffs_view(v).insert(i, d@),
{
    assert(diffs_view(v.insert(i, d)) =~= diffs_view(v).insert(i, d@));
}


} // verus!
