use vstd::prelude::*;

use crate::processor::{
    find_possible_sources_for_differentials_in_stem, get_filtered_data, SourceRow,
};
use crate::reference::{tor_lt, RefEntry};
use crate::types::{Category, Differential, Kind, Multiplication, SyntheticEHP, Torsion};
use crate::MAX_STEM;

verus! {


/// A proposed differential that would resolve a mismatch.
#[derive(Clone, Debug, PartialEq, Eq)]
pub struct DiffSolution {
    pub from: String,
    pub to: String,
    pub coeff: i32,
    pub d: i32,
}

/// A proposed tau multiplication that would resolve a mismatch.
#[derive(Clone, Debug, PartialEq, Eq)]
pub struct TauMultSolution {
    pub from: String,
    pub to: String,
}

/// A candidate resolution of one issue: a single differential, a pair of
/// jointly consistent differentials, or a tau multiplication.
#[derive(Clone, Debug, PartialEq, Eq)]
pub enum Solution {
    Diff(DiffSolution),
    DoubleDiff(DiffSolution, DiffSolution),
    Tau(TauMultSolution),
}

/// The mathematical value of a `DiffSolution`.
#[verifier::ext_equal]
pub struct DiffSolModel {
    pub from: Seq<char>,
    pub to: Seq<char>,
    pub coeff: i32,
    pub d: i32,
}

impl View for DiffSolution {
    type V = DiffSolModel;

    open spec fn view(&self) -> DiffSolModel {
        DiffSolModel { from: self.from@, to: self.to@, coeff: self.coeff, d: self.d }
    }
}

/// The mathematical value of a `TauMultSolution`.
#[verifier::ext_equal]
pub struct TauSolModel {
    pub from: Seq<char>,
    pub to: Seq<char>,
}

impl View for TauMultSolution {
    type V = TauSolModel;

    open spec fn view(&self) -> TauSolModel {
        TauSolModel { from: self.from@, to: self.to@ }
    }
}

/// The mathematical value of a `Solution`.
#[verifier::ext_equal]
pub enum SolutionModel {
    Diff(DiffSolModel),
    DoubleDiff(DiffSolModel, DiffSolModel),
    Tau(TauSolModel),
}

impl View for Solution {
    type V = SolutionModel;

    open spec fn view(&self) -> SolutionModel {
        match self {
            Solution::Diff(d) => SolutionModel::Diff(d@),
            Solution::DoubleDiff(d1, d2) => SolutionModel::DoubleDiff(d1@, d2@),
            Solution::Tau(t) => SolutionModel::Tau(t@),
        }
    }
}

/// The values of a candidate list.
pub open spec fn sols_view(v: Seq<Solution>) -> Seq<SolutionModel> {
    v.map_values(|s: Solution| s@)
}

/// Viewing distributes over appending a candidate.
pub proof fn lemma_sols_view_push(v: Seq<Solution>, s: Solution)
    ensures
        sols_view(v.push(s)) == sols_view(v).push(s@),
{
    assert(sols_view(v.push(s)) =~~= sols_view(v).push(s@));
}

/// The endpoint names of a candidate.
pub open spec fn spec_endpoints(s: SolutionModel) -> Seq<Seq<char>> {
    match s {
        SolutionModel::Diff(d) => seq![d.from, d.to],
        SolutionModel::Tau(t) => seq![t.from, t.to],
        SolutionModel::DoubleDiff(d1, d2) => seq![d1.from, d1.to, d2.from, d2.to],
    }
}

/// Whether two candidates share an endpoint generator.
pub open spec fn spec_share_endpoint(a: SolutionModel, b: SolutionModel) -> bool {
    exists|i: int, j: int|
        0 <= i < spec_endpoints(a).len() && 0 <= j < spec_endpoints(b).len() && spec_endpoints(
            a,
        )[i] == spec_endpoints(b)[j]
}

impl Solution {
    /// Collect the endpoint names of this candidate.
    fn endpoint_names(&self) -> (r: Vec<String>)
        ensures
            r@.map_values(|s: String| s@) == spec_endpoints(self@),
    {
        let mut r: Vec<String> = Vec::new();
        match self {
            Solution::Diff(d) => {
                r.push(d.from.clone());
                r.push(d.to.clone());
            },
            Solution::Tau(t) => {
                r.push(t.from.clone());
                r.push(t.to.clone());
            },
            Solution::DoubleDiff(d1, d2) => {
                r.push(d1.from.clone());
                r.push(d1.to.clone());
                r.push(d2.from.clone());
                r.push(d2.to.clone());
            },
        }
        proof {
            assert(r@.map_values(|s: String| s@) =~~= spec_endpoints(self@));
        }
        r
    }

    /// Whether this candidate and another name a common endpoint
    /// generator, in which case accepting both would be ambiguous.
    pub fn names_occur_in_both(&self, other: &Solution) -> (r: bool)
        ensures
            r == spec_share_endpoint(self@, other@),
    {
        let a = self.endpoint_names();
        let b = other.endpoint_names();
        let na = a.len();
        let nb = b.len();
        let mut i: usize = 0;
        while i < na
            invariant
                na == a@.len(),
                nb == b@.len(),
                0 <= i <= na,
                a@.map_values(|s: String| s@) == spec_endpoints(self@),
                b@.map_values(|s: String| s@) == spec_endpoints(other@),
                forall|p: int, q: int|
                    0 <= p < i && 0 <= q < nb ==> spec_endpoints(self@)[p] != spec_endpoints(
                        other@,
                    )[q],
            decreases na - i,
        {
            let mut j: usize = 0;
            while j < nb
                invariant
                    na == a@.len(),
                    nb == b@.len(),
                    0 <= i < na,
                    0 <= j <= nb,
                    a@.map_values(|s: String| s@) == spec_endpoints(self@),
                    b@.map_values(|s: String| s@) == spec_endpoints(other@),
                    forall|q: int|
                        0 <= q < j ==> spec_endpoints(self@)[i as int] != spec_endpoints(
                            other@,
                        )[q],
                decreases nb - j,
            {
                if a[i] == b[j] {
                    proof {
                        assert(spec_endpoints(self@)[i as int] == a@[i as int]@);
                        assert(spec_endpoints(other@)[j as int] == b@[j as int]@);
                    }
                    return true;
                }
                proof {
                    assert(spec_endpoints(self@)[i as int] == a@[i as int]@);
                    assert(spec_endpoints(other@)[j as int] == b@[j as int]@);
                }
                j = j + 1;
            }
            i = i + 1;
        }
        false
    }
}

/// One surviving generator of an observed bidegree group.
#[derive(Clone, Debug, PartialEq, Eq)]
pub struct ObsEntry {
    pub torsion: Torsion,
    pub name: String,
    pub y: i32,
}

/// The mathematical value of an `ObsEntry`.
#[verifier::ext_equal]
pub struct ObsModel {
    pub torsion: Torsion,
    pub name: Seq<char>,
    pub y: i32,
}

impl View for ObsEntry {
    type V = ObsModel;

    open spec fn view(&self) -> ObsModel {
        ObsModel { torsion: self.torsion, name: self.name@, y: self.y }
    }
}

/// The values of an observed group.
pub open spec fn obs_view(v: Seq<ObsEntry>) -> Seq<ObsModel> {
    v.map_values(|o: ObsEntry| o@)
}

/// Viewing distributes over appending an entry.
pub proof fn lemma_obs_view_push(v: Seq<ObsEntry>, o: ObsEntry)
    ensures
        obs_view(v.push(o)) == obs_view(v).push(o@),
{
    assert(obs_view(v.push(o)) =~~= obs_view(v).push(o@));
}

/// A mismatch between the replayed final page and the reference data at
/// one bidegree of one truncation window.
#[derive(Clone, Debug, PartialEq, Eq)]
pub struct Issue {
    pub bot_trunc: i32,
    pub top_trunc: i32,
    pub stem: i32,
    pub af: i32,
    pub obs: Vec<ObsEntry>,
    pub exp: Vec<Torsion>,
}

/// The mathematical value of an `Issue`.
#[verifier::ext_equal]
pub struct IssueModel {
    pub bot_trunc: i32,
    pub top_trunc: i32,
    pub stem: i32,
    pub af: i32,
    pub obs: Seq<ObsModel>,
    pub exp: Seq<Torsion>,
}

impl View for Issue {
    type V = IssueModel;

    open spec fn view(&self) -> IssueModel {
        IssueModel {
            bot_trunc: self.bot_trunc,
            top_trunc: self.top_trunc,
            stem: self.stem,
            af: self.af,
            obs: obs_view(self.obs@),
            exp: self.exp@,
        }
    }
}

/// The values of an issue list.
pub open spec fn issues_view(v: Seq<Issue>) -> Seq<IssueModel> {
    v.map_values(|i: Issue| i@)
}

/// Why the solver could not finish a stem.
#[derive(Clone, Debug, PartialEq, Eq)]
pub enum SolverFailure {
    /// The reference expects a bidegree that the replay has no surviving
    /// generator at: the input tables are inconsistent with the
    /// reference.
    MissingBidegree { stem: i32, af: i32 },
    /// An issue has fewer observed than expected entries, a shape the
    /// candidate search does not cover.
    UnexpectedIssueShape { stem: i32, af: i32 },
    /// Issues remain and no unambiguous candidate resolves any of them.
    Unresolved { stem: i32 },
    /// No reference table was supplied for a truncation window.
    MissingTable { bot_trunc: i32, top_trunc: i32 },
}

/// The torsion values of an observed group, in group order.
pub open spec fn obs_torsions(obs: Seq<ObsModel>) -> Seq<Torsion> {
    obs.map_values(|o: ObsModel| o.torsion)
}

/// Lexicographic character order on names, used only to fix the order of
/// equal-torsion entries deterministically.
pub open spec fn chars_lt(a: Seq<char>, b: Seq<char>) -> bool
    decreases a.len() + b.len(),
{
    if a.len() == 0 {
        b.len() > 0
    } else if b.len() == 0 {
        false
    } else if a[0] == b[0] {
        chars_lt(a.drop_first(), b.drop_first())
    } else {
        (a[0] as u32) < (b[0] as u32)
    }
}

/// Exec comparison mirroring `chars_lt`.
fn str_less(a: &String, b: &String) -> (r: bool)
    ensures
        r == chars_lt(a@, b@),
{
    let an = a.as_str().unicode_len();
    let bn = b.as_str().unicode_len();
    let mut i: usize = 0;
    proof {
        assert(a@.skip(0) =~= a@);
        assert(b@.skip(0) =~= b@);
    }
    loop
        invariant
            an == a@.len(),
            bn == b@.len(),
            0 <= i <= an,
            i <= bn,
            chars_lt(a@, b@) == chars_lt(a@.skip(i as int), b@.skip(i as int)),
        decreases an - i,
    {
        if i >= an {
            proof {
                assert(a@.skip(i as int).len() == 0);
            }
            return bn > i;
        }
        if i >= bn {
            proof {
                assert(b@.skip(i as int).len() == 0 && a@.skip(i as int).len() > 0);
            }
            return false;
        }
        let ca = a.as_str().get_char(i);
        let cb = b.as_str().get_char(i);
        proof {
            assert(a@.skip(i as int)[0] == a@[i as int]);
            assert(b@.skip(i as int)[0] == b@[i as int]);
            assert(a@.skip(i as int).drop_first() =~= a@.skip(i + 1));
            assert(b@.skip(i as int).drop_first() =~= b@.skip(i + 1));
        }
        if ca != cb {
            return (ca as u32) < (cb as u32);
        }
        i = i + 1;
    }
}

proof fn lemma_chars_lt_trans(a: Seq<char>, b: Seq<char>, c: Seq<char>)
    requires
        chars_lt(a, b),
        chars_lt(b, c),
    ensures
        chars_lt(a, c),
    decreases a.len() + b.len() + c.len(),
{
    if a.len() > 0 && b.len() > 0 && c.len() > 0 && a[0] == b[0] && b[0] == c[0] {
        lemma_chars_lt_trans(a.drop_first(), b.drop_first(), c.drop_first());
    }
}

proof fn lemma_chars_lt_asym(a: Seq<char>, b: Seq<char>)
    requires
        chars_lt(a, b),
    ensures
        !chars_lt(b, a),
    decreases a.len() + b.len(),
{
    if a.len() > 0 && b.len() > 0 && a[0] == b[0] {
        lemma_chars_lt_asym(a.drop_first(), b.drop_first());
    }
}

/// The observed-group order is transitive in its negation, which the
/// insertion sort leans on.
proof fn lemma_obs_lt_trans(a: ObsModel, b: ObsModel, c: ObsModel)
    requires
        obs_lt(a, b),
        obs_lt(b, c),
    ensures
        obs_lt(a, c),
{
    if a.torsion == b.torsion && b.torsion == c.torsion {
        lemma_chars_lt_trans(a.name, b.name, c.name);
    }
}

proof fn lemma_obs_lt_asym(a: ObsModel, b: ObsModel)
    requires
        obs_lt(a, b),
    ensures
        !obs_lt(b, a),
{
    if a.torsion == b.torsion {
        lemma_chars_lt_asym(a.name, b.name);
    }
}

/// The order of an observed group: by torsion, ties by name.
pub open spec fn obs_lt(a: ObsModel, b: ObsModel) -> bool {
    tor_lt(a.torsion, b.torsion) || (a.torsion == b.torsion && chars_lt(a.name, b.name))
}

/// Sortedness of an observed group under `obs_lt`.
pub open spec fn obs_sorted(s: Seq<ObsModel>) -> bool {
    forall|i: int, j: int| 0 <= i < j < s.len() ==> !obs_lt(#[trigger] s[j], #[trigger] s[i])
}

/// The stable ordered insert of an observed entry: after everything it
/// is not strictly below.
pub open spec fn spec_insert_obs(s: Seq<ObsModel>, m: ObsModel) -> Seq<ObsModel>
    decreases s.len(),
{
    if s.len() == 0 {
        seq![m]
    } else if obs_lt(m, s[0]) {
        seq![m] + s
    } else {
        seq![s[0]] + spec_insert_obs(s.drop_first(), m)
    }
}

/// The stable sort of an observed group by (torsion, name).
pub open spec fn spec_sort_obs(s: Seq<ObsModel>) -> Seq<ObsModel>
    decreases s.len(),
{
    if s.len() == 0 {
        Seq::empty()
    } else {
        spec_insert_obs(spec_sort_obs(s.drop_last()), s.last())
    }
}

/// A left-to-right scan finds the position the stable insert uses.
proof fn lemma_insert_obs_at_first(s: Seq<ObsModel>, m: ObsModel, pos: int)
    requires
        0 <= pos <= s.len(),
        forall|k: int| 0 <= k < pos ==> !obs_lt(m, #[trigger] s[k]),
        pos < s.len() ==> obs_lt(m, s[pos]),
    ensures
        spec_insert_obs(s, m) == s.insert(pos, m),
    decreases s.len(),
{
    if s.len() == 0 {
        assert(spec_insert_obs(s, m) =~= s.insert(0, m));
    } else if obs_lt(m, s[0]) {
        assert(pos == 0);
        assert(seq![m] + s =~= s.insert(0, m));
    } else {
        let rest = s.drop_first();
        assert(pos >= 1);
        assert(forall|k: int| 0 <= k < pos - 1 ==> rest[k] == s[k + 1]);
        assert(pos - 1 < rest.len() ==> obs_lt(m, rest[pos - 1]));
        lemma_insert_obs_at_first(rest, m, pos - 1);
        assert(seq![s[0]] + rest.insert(pos - 1, m) =~= s.insert(pos, m));
    }
}

fn obs_less(a: &ObsEntry, b: &ObsEntry) -> (r: bool)
    ensures
        r == obs_lt(a@, b@),
{
    if crate::reference::tor_less(a.torsion, b.torsion) {
        true
    } else if a.torsion == b.torsion {
        str_less(&a.name, &b.name)
    } else {
        false
    }
}

fn clone_obs(o: &ObsEntry) -> (r: ObsEntry)
    ensures
        r == *o,
{
    ObsEntry { torsion: o.torsion, name: o.name.clone(), y: o.y }
}

/// Stable insertion sort of an observed group by (torsion, name).
fn sort_obs(v: Vec<ObsEntry>) -> (r: Vec<ObsEntry>)
    ensures
        obs_view(r@) == spec_sort_obs(obs_view(v@)),
        obs_sorted(obs_view(r@)),
{
    let mut src = v;
    let mut out: Vec<ObsEntry> = Vec::new();
    let ghost orig = obs_view(src@);
    let total = src.len();
    proof {
        assert(orig.len() == total as int);
    }
    let mut taken: usize = 0;
    while src.len() > 0
        invariant
            taken + src@.len() == orig.len(),
            orig.len() <= usize::MAX,
            obs_view(src@) == orig.skip(taken as int),
            obs_view(out@) == spec_sort_obs(orig.take(taken as int)),
            obs_sorted(obs_view(out@)),
        decreases src@.len(),
    {
        let ghost sv = obs_view(src@);
        let t = src.remove(0);
        proof {
            assert(sv[0] == t@);
            assert(obs_view(src@) =~= sv.drop_first());
            assert(sv.drop_first() =~= orig.skip(taken + 1));
        }
        let n = out.len();
        let mut pos: usize = 0;
        while pos < n
            invariant_except_break
                n == out@.len(),
                0 <= pos <= n,
                forall|k: int| 0 <= k < pos ==> !obs_lt(t@, #[trigger] obs_view(out@)[k]),
            ensures
                0 <= pos <= n,
                n == out@.len(),
                forall|k: int| 0 <= k < pos ==> !obs_lt(t@, #[trigger] obs_view(out@)[k]),
                pos < n ==> obs_lt(t@, obs_view(out@)[pos as int]),
            decreases n - pos,
        {
            proof {
                assert(obs_view(out@)[pos as int] == out@[pos as int]@);
            }
            if obs_less(&t, &out[pos]) {
                break;
            }
            pos = pos + 1;
        }
        let ghost out_before = obs_view(out@);
        let ghost tm = t@;
        proof {
            lemma_insert_obs_at_first(out_before, tm, pos as int);
        }
        out.insert(pos, t);
        proof {
            assert(obs_view(out@) =~= out_before.insert(pos as int, tm));
            assert(obs_sorted(obs_view(out@))) by {
                assert forall|i: int, j: int|
                    0 <= i < j < obs_view(out@).len() implies !obs_lt(
                    obs_view(out@)[j],
                    obs_view(out@)[i],
                ) by {
                    let ov = obs_view(out@);
                    if j < pos {
                    } else if i < pos && j == pos {
                        assert(ov[j] == tm && ov[i] == out_before[i]);
                    } else if i < pos {
                        assert(ov[j] == out_before[j - 1]);
                    } else if i == pos {
                        assert(ov[i] == tm && ov[j] == out_before[j - 1]);
                        assert(!obs_lt(out_before[j - 1], tm)) by {
                            if obs_lt(out_before[j - 1], tm) {
                                assert(obs_lt(tm, out_before[pos as int]));
                                if j - 1 == pos {
                                    lemma_obs_lt_asym(out_before[j - 1], tm);
                                } else {
                                    lemma_obs_lt_trans(
                                        out_before[j - 1],
                                        tm,
                                        out_before[pos as int],
                                    );
                                    assert(!obs_lt(
                                        out_before[j - 1],
                                        out_before[pos as int],
                                    ));
                                }
                            }
                        }
                    } else {
                        assert(ov[i] == out_before[i - 1] && ov[j] == out_before[j - 1]);
                    }
                }
            }
            let t2 = orig.take(taken + 1);
            assert(t2.drop_last() =~= orig.take(taken as int));
            assert(t2.last() == orig[taken as int]);
            assert(orig[taken as int] == tm);
        }
        taken = taken + 1;
    }
    proof {
        assert(orig.take(taken as int) =~= orig);
    }
    out
}

/// Whether an observed group carries exactly the expected torsions.
pub open spec fn group_matches(obs: Seq<ObsModel>, exp: Seq<Torsion>) -> bool {
    obs_torsions(obs) == exp
}

fn torsions_equal(obs: &Vec<ObsEntry>, exp: &Vec<Torsion>) -> (r: bool)
    ensures
        r == group_matches(obs_view(obs@), exp@),
{
    let n = obs.len();
    if n != exp.len() {
        proof {
            assert(obs_torsions(obs_view(obs@)).len() == obs@.len());
        }
        return false;
    }
    let mut i: usize = 0;
    while i < n
        invariant
            n == obs@.len() == exp@.len(),
            0 <= i <= n,
            forall|k: int| 0 <= k < i ==> (#[trigger] obs@[k]).torsion == exp@[k],
        decreases n - i,
    {
        if !(obs[i].torsion == exp[i]) {
            proof {
                assert(obs_torsions(obs_view(obs@))[i as int] == obs@[i as int].torsion);
            }
            return false;
        }
        i = i + 1;
    }
    proof {
        assert(obs_torsions(obs_view(obs@)) =~= exp@);
    }
    true
}

/// The values of a grouped final page.
pub open spec fn groups_view(v: Seq<(i32, Vec<ObsEntry>)>) -> Seq<(i32, Seq<ObsModel>)> {
    v.map_values(|p: (i32, Vec<ObsEntry>)| (p.0, obs_view(p.1@)))
}

/// Index of the first group at a filtration, or -1.
pub open spec fn grp_index(gs: Seq<(i32, Seq<ObsModel>)>, af: i32) -> int
    decreases gs.len(),
{
    if gs.len() == 0 {
        -1
    } else if gs[0].0 == af {
        0
    } else {
        let r = grp_index(gs.drop_first(), af);
        if r < 0 {
            -1
        } else {
            r + 1
        }
    }
}

/// What the first-group index means position by position.
pub proof fn lemma_grp_index(gs: Seq<(i32, Seq<ObsModel>)>, af: i32)
    ensures
        grp_index(gs, af) == -1 ==> forall|k: int|
            0 <= k < gs.len() ==> (#[trigger] gs[k]).0 != af,
        grp_index(gs, af) >= 0 ==> {
            let r = grp_index(gs, af);
            &&& r < gs.len()
            &&& gs[r].0 == af
            &&& forall|k: int| 0 <= k < r ==> (#[trigger] gs[k]).0 != af
        },
    decreases gs.len(),
{
    if gs.len() > 0 && gs[0].0 != af {
        let rest = gs.drop_first();
        lemma_grp_index(rest, af);
        let r = grp_index(gs, af);
        if r == -1 {
            assert forall|k: int| 0 <= k < gs.len() implies (#[trigger] gs[k]).0 != af by {
                if k > 0 {
                    assert(rest[k - 1] == gs[k]);
                }
            }
        } else {
            assert(gs[r] == rest[r - 1]);
            assert forall|k: int| 0 <= k < r implies (#[trigger] gs[k]).0 != af by {
                if k > 0 {
                    assert(rest[k - 1] == gs[k]);
                }
            }
        }
    }
}

/// Add one survivor to its filtration group, creating the group at the
/// end if it is new.
pub open spec fn spec_group_add(
    gs: Seq<(i32, Seq<ObsModel>)>,
    af: i32,
    o: ObsModel,
) -> Seq<(i32, Seq<ObsModel>)> {
    let idx = grp_index(gs, af);
    if idx >= 0 {
        gs.update(idx, (af, gs[idx].1.push(o)))
    } else {
        gs.push((af, seq![o]))
    }
}

/// The surviving generators of a final page, grouped by filtration in
/// first-appearance order.
pub open spec fn spec_groups(
    finals: Seq<crate::processor::FinalRowModel>,
) -> Seq<(i32, Seq<ObsModel>)>
    decreases finals.len(),
{
    if finals.len() == 0 {
        Seq::empty()
    } else {
        let rest = spec_groups(finals.drop_last());
        let r = finals.last();
        if r.torsion == Torsion::Zero {
            rest
        } else {
            spec_group_add(rest, r.filtration, ObsModel { torsion: r.torsion, name: r.name, y: r.y })
        }
    }
}

/// Stable ordered insert of a group by ascending filtration.
pub open spec fn spec_insert_group(
    gs: Seq<(i32, Seq<ObsModel>)>,
    g: (i32, Seq<ObsModel>),
) -> Seq<(i32, Seq<ObsModel>)>
    decreases gs.len(),
{
    if gs.len() == 0 {
        seq![g]
    } else if g.0 < gs[0].0 {
        seq![g] + gs
    } else {
        seq![gs[0]] + spec_insert_group(gs.drop_first(), g)
    }
}

/// The groups brought into ascending filtration order, stably.
pub open spec fn spec_order_groups(gs: Seq<(i32, Seq<ObsModel>)>) -> Seq<(i32, Seq<ObsModel>)>
    decreases gs.len(),
{
    if gs.len() == 0 {
        Seq::empty()
    } else {
        spec_insert_group(spec_order_groups(gs.drop_last()), gs.last())
    }
}

proof fn lemma_insert_group_at_first(
    gs: Seq<(i32, Seq<ObsModel>)>,
    g: (i32, Seq<ObsModel>),
    pos: int,
)
    requires
        0 <= pos <= gs.len(),
        forall|k: int| 0 <= k < pos ==> !(g.0 < (#[trigger] gs[k]).0),
        pos < gs.len() ==> g.0 < gs[pos].0,
    ensures
        spec_insert_group(gs, g) == gs.insert(pos, g),
    decreases gs.len(),
{
    if gs.len() == 0 {
        assert(spec_insert_group(gs, g) =~= gs.insert(0, g));
    } else if g.0 < gs[0].0 {
        assert(pos == 0);
        assert(seq![g] + gs =~= gs.insert(0, g));
    } else {
        let rest = gs.drop_first();
        assert(pos >= 1);
        assert(forall|k: int| 0 <= k < pos - 1 ==> rest[k] == gs[k + 1]);
        assert(pos - 1 < rest.len() ==> g.0 < rest[pos - 1].0);
        lemma_insert_group_at_first(rest, g, pos - 1);
        assert(seq![gs[0]] + rest.insert(pos - 1, g) =~= gs.insert(pos, g));
    }
}

/// The ordered groups of the stem-limited converged replay.
pub open spec fn spec_issue_groups(
    data: SyntheticEHP,
    bot_trunc: i32,
    top_trunc: i32,
    stem: i32,
) -> Seq<(i32, Seq<ObsModel>)> {
    spec_order_groups(
        spec_groups(
            crate::processor::spec_final_rows(
                crate::processor::spec_filtered(
                    data,
                    Category::Synthetic,
                    bot_trunc,
                    (top_trunc + 1) as i32,
                    1000,
                    Some(stem),
                ).0,
            ),
        ),
    )
}

/// Whether the reference expects a bidegree of this stem that has no
/// surviving observed group: the fatal shape of a mismatch.
pub open spec fn spec_missing_bidegree(
    gs: Seq<(i32, Seq<ObsModel>)>,
    exp: Seq<crate::reference::RefEntryModel>,
    stem: i32,
) -> bool {
    exists|e: int|
        0 <= e < exp.len() && (#[trigger] exp[e]).stem == stem && grp_index(gs, exp[e].af) == -1
}

/// Index of the first expected entry of the stem with no observed group,
/// or -1.
pub open spec fn spec_first_missing(
    gs: Seq<(i32, Seq<ObsModel>)>,
    exp: Seq<crate::reference::RefEntryModel>,
    stem: i32,
) -> int
    decreases exp.len(),
{
    if exp.len() == 0 {
        -1
    } else if exp[0].stem == stem && grp_index(gs, exp[0].af) == -1 {
        0
    } else {
        let r = spec_first_missing(gs, exp.drop_first(), stem);
        if r < 0 {
            -1
        } else {
            r + 1
        }
    }
}

/// What the first-missing index means position by position.
pub proof fn lemma_first_missing(
    gs: Seq<(i32, Seq<ObsModel>)>,
    exp: Seq<crate::reference::RefEntryModel>,
    stem: i32,
)
    ensures
        spec_first_missing(gs, exp, stem) == -1 ==> forall|k: int|
            0 <= k < exp.len() ==> !((#[trigger] exp[k]).stem == stem && grp_index(
                gs,
                exp[k].af,
            ) == -1),
        spec_first_missing(gs, exp, stem) >= 0 ==> {
            let r = spec_first_missing(gs, exp, stem);
            &&& r < exp.len()
            &&& exp[r].stem == stem
            &&& grp_index(gs, exp[r].af) == -1
            &&& forall|k: int|
                0 <= k < r ==> !((#[trigger] exp[k]).stem == stem && grp_index(
                    gs,
                    exp[k].af,
                ) == -1)
        },
        spec_missing_bidegree(gs, exp, stem) <==> spec_first_missing(gs, exp, stem) >= 0,
    decreases exp.len(),
{
    if exp.len() > 0 && !(exp[0].stem == stem && grp_index(gs, exp[0].af) == -1) {
        let rest = exp.drop_first();
        lemma_first_missing(gs, rest, stem);
        let r = spec_first_missing(gs, exp, stem);
        if r == -1 {
            assert forall|k: int| 0 <= k < exp.len() implies !((#[trigger] exp[k]).stem == stem
                && grp_index(gs, exp[k].af) == -1) by {
                if k > 0 {
                    assert(rest[k - 1] == exp[k]);
                }
            }
        } else {
            assert(exp[r] == rest[r - 1]);
            assert forall|k: int| 0 <= k < r implies !((#[trigger] exp[k]).stem == stem
                && grp_index(gs, exp[k].af) == -1) by {
                if k > 0 {
                    assert(rest[k - 1] == exp[k]);
                }
            }
        }
        if spec_missing_bidegree(gs, exp, stem) {
            let w = choose|e: int|
                0 <= e < exp.len() && (#[trigger] exp[e]).stem == stem && grp_index(
                    gs,
                    exp[e].af,
                ) == -1;
            if r == -1 {
                assert(!(exp[w].stem == stem && grp_index(gs, exp[w].af) == -1));
            }
        }
        if r >= 0 {
            assert(spec_missing_bidegree(gs, exp, stem)) by {
                assert(exp[r].stem == stem && grp_index(gs, exp[r].af) == -1);
            }
        }
    } else if exp.len() > 0 {
        assert(spec_missing_bidegree(gs, exp, stem)) by {
            assert(exp[0].stem == stem && grp_index(gs, exp[0].af) == -1);
        }
    }
}

/// The issues of the ordered groups: one per group whose sorted torsions
/// differ from the reference pages of its bidegree, a group with no
/// reference entry held against an empty expectation.
pub open spec fn spec_issues(
    gs: Seq<(i32, Seq<ObsModel>)>,
    exp: Seq<crate::reference::RefEntryModel>,
    bot_trunc: i32,
    top_trunc: i32,
    stem: i32,
) -> Seq<IssueModel>
    decreases gs.len(),
{
    if gs.len() == 0 {
        Seq::empty()
    } else {
        let rest = spec_issues(gs.drop_last(), exp, bot_trunc, top_trunc, stem);
        let g = gs.last();
        let sorted = spec_sort_obs(g.1);
        let e = crate::reference::ref_index(exp, stem, g.0);
        if e >= 0 {
            if obs_torsions(sorted) == exp[e].pages {
                rest
            } else {
                rest.push(
                    IssueModel {
                        bot_trunc,
                        top_trunc,
                        stem,
                        af: g.0,
                        obs: sorted,
                        exp: exp[e].pages,
                    },
                )
            }
        } else {
            rest.push(
                IssueModel {
                    bot_trunc,
                    top_trunc,
                    stem,
                    af: g.0,
                    obs: sorted,
                    exp: Seq::empty(),
                },
            )
        }
    }
}

/// Discover the issues of one stem under one truncation window: replay to
/// the final page, group the surviving generators by (stem, filtration),
/// sort each group, and hold it against the reference.  The result is
/// exactly the issue list of the replayed groups; a bidegree the
/// reference expects but the replay lacks aborts the search instead.
pub fn find_issues(
    data: &SyntheticEHP,
    bot_trunc: i32,
    top_trunc: i32,
    stem: i32,
    exp: &Vec<RefEntry>,
) -> (r: Result<Vec<Issue>, SolverFailure>)
    requires
        data.torsion_wf(),
        top_trunc < i32::MAX,
    ensures
        r is Ok <==> !spec_missing_bidegree(
            spec_issue_groups(*data, bot_trunc, top_trunc, stem),
            crate::reference::refs_view(exp@),
            stem,
        ),
        match r {
            Ok(issues) => issues_view(issues@) == spec_issues(
                spec_issue_groups(*data, bot_trunc, top_trunc, stem),
                crate::reference::refs_view(exp@),
                bot_trunc,
                top_trunc,
                stem,
            ),
            Err(e) => {
                let gs = spec_issue_groups(*data, bot_trunc, top_trunc, stem);
                let ev = crate::reference::refs_view(exp@);
                let fm = spec_first_missing(gs, ev, stem);
                &&& fm >= 0
                &&& e == (SolverFailure::MissingBidegree { stem, af: ev[fm].af })
            },
        },
{
    let ghost ev = crate::reference::refs_view(exp@);
    let (pages, _diags) = get_filtered_data(
        data,
        Category::Synthetic,
        bot_trunc,
        top_trunc + 1,
        1000,
        Some(stem),
    );
    let finals = pages.get_final_page();
    let ghost fm = finals@.map_values(|f: crate::processor::FinalRow| f@);

    // group the surviving generators by Adams filtration
    let mut groups: Vec<(i32, Vec<ObsEntry>)> = Vec::new();
    let n = finals.len();
    let mut i: usize = 0;
    proof {
        assert(groups_view(groups@) =~~= spec_groups(fm.take(0)));
    }
    while i < n
        invariant
            n == finals@.len(),
            0 <= i <= n,
            fm == finals@.map_values(|f: crate::processor::FinalRow| f@),
            groups_view(groups@) == spec_groups(fm.take(i as int)),
        decreases n - i,
    {
        let g = &finals[i];
        let ghost before = groups_view(groups@);
        proof {
            assert(fm[i as int] == finals@[i as int]@);
            assert(fm.take(i + 1).drop_last() =~= fm.take(i as int));
            assert(fm.take(i + 1).last() == fm[i as int]);
            lemma_grp_index(before, g.filtration);
        }
        if !g.torsion.is_zero() {
            let m = groups.len();
            let mut k: usize = 0;
            let mut found = false;
            while k < m
                invariant_except_break
                    m == groups@.len(),
                    0 <= k <= m,
                    !found,
                    0 <= i < n,
                    n == finals@.len(),
                    *g == finals@[i as int],
                    forall|q: int| 0 <= q < k ==> (#[trigger] groups_view(groups@)[q]).0
                        != finals@[i as int].filtration,
                ensures
                    0 <= k <= m,
                    m == groups@.len(),
                    0 <= i < n,
                    n == finals@.len(),
                    found ==> k < m && groups_view(groups@)[k as int].0
                        == finals@[i as int].filtration,
                    forall|q: int|
                        0 <= q < (if found {
                            k as int
                        } else {
                            m as int
                        }) ==> (#[trigger] groups_view(groups@)[q]).0
                        != finals@[i as int].filtration,
                decreases m - k,
            {
                proof {
                    assert(groups_view(groups@)[k as int].0 == groups@[k as int].0);
                }
                if groups[k].0 == g.filtration {
                    found = true;
                    break;
                }
                k = k + 1;
            }
            let entry = ObsEntry { torsion: g.torsion, name: g.name.clone(), y: g.y };
            let ghost em = entry@;
            proof {
                if found {
                    assert(grp_index(before, g.filtration) == k as int) by {
                        lemma_grp_index(before, g.filtration);
                    }
                } else {
                    assert(grp_index(before, g.filtration) == -1) by {
                        lemma_grp_index(before, g.filtration);
                        if grp_index(before, g.filtration) >= 0 {
                            assert(before[grp_index(before, g.filtration)].0 == g.filtration);
                        }
                    }
                }
            }
            if found {
                let ghost gb = groups@;
                groups[k].1.push(entry);
                proof {
                    assert(obs_view(groups@[k as int].1@) =~~= obs_view(gb[k as int].1@).push(
                        em,
                    ));
                    assert(groups_view(groups@) =~~= before.update(
                        k as int,
                        (finals@[i as int].filtration, before[k as int].1.push(em)),
                    ));
                }
            } else {
                let mut v: Vec<ObsEntry> = Vec::new();
                v.push(entry);
                groups.push((g.filtration, v));
                proof {
                    assert(obs_view(groups@[groups@.len() - 1].1@) =~~= seq![em]);
                    assert(groups_view(groups@) =~~= before.push(
                        (finals@[i as int].filtration, seq![em]),
                    ));
                }
            }
            proof {
                assert(groups_view(groups@) =~~= spec_group_add(
                    before,
                    fm[i as int].filtration,
                    ObsModel {
                        torsion: fm[i as int].torsion,
                        name: fm[i as int].name,
                        y: fm[i as int].y,
                    },
                ));
            }
        }
        proof {
            assert(groups_view(groups@) =~~= spec_groups(fm.take(i + 1)));
        }
        i = i + 1;
    }
    proof {
        assert(fm.take(n as int) =~= fm);
    }
    let ghost raw_groups = groups_view(groups@);

    // deterministic order: groups ascending by filtration
    let mut ordered: Vec<(i32, Vec<ObsEntry>)> = Vec::new();
    let mut rest = groups;
    let ghost rg = groups_view(rest@);
    let total = rest.len();
    proof {
        assert(rg.len() == total as int);
        assert(groups_view(ordered@) =~~= spec_order_groups(rg.take(0)));
    }
    let mut taken: usize = 0;
    while rest.len() > 0
        invariant
            taken + rest@.len() == rg.len(),
            rg.len() <= usize::MAX,
            groups_view(rest@) == rg.skip(taken as int),
            groups_view(ordered@) == spec_order_groups(rg.take(taken as int)),
        decreases rest@.len(),
    {
        let ghost sv = groups_view(rest@);
        let g = rest.remove(0);
        let ghost gm = (g.0, obs_view(g.1@));
        proof {
            assert(sv[0] == gm);
            assert(groups_view(rest@) =~~= sv.drop_first());
            assert(sv.drop_first() =~~= rg.skip(taken + 1));
        }
        let on = ordered.len();
        let mut pos: usize = 0;
        while pos < on
            invariant_except_break
                on == ordered@.len(),
                0 <= pos <= on,
                forall|k: int| 0 <= k < pos ==> !(gm.0 < (#[trigger] groups_view(
                    ordered@,
                )[k]).0),
                gm.0 == g.0,
            ensures
                0 <= pos <= on,
                on == ordered@.len(),
                forall|k: int| 0 <= k < pos ==> !(gm.0 < (#[trigger] groups_view(
                    ordered@,
                )[k]).0),
                pos < on ==> gm.0 < groups_view(ordered@)[pos as int].0,
            decreases on - pos,
        {
            proof {
                assert(groups_view(ordered@)[pos as int].0 == ordered@[pos as int].0);
            }
            if g.0 < ordered[pos].0 {
                break;
            }
            pos = pos + 1;
        }
        let ghost ob = groups_view(ordered@);
        proof {
            lemma_insert_group_at_first(ob, gm, pos as int);
        }
        ordered.insert(pos, g);
        proof {
            assert(groups_view(ordered@) =~~= ob.insert(pos as int, gm));
            let t2 = rg.take(taken + 1);
            assert(t2.drop_last() =~= rg.take(taken as int));
            assert(t2.last() == rg[taken as int]);
            assert(rg[taken as int] == gm);
        }
        taken = taken + 1;
    }
    proof {
        assert(rg.take(taken as int) =~~= rg);
        assert(rg =~~= raw_groups);
        assert(groups_view(ordered@) == spec_issue_groups(*data, bot_trunc, top_trunc, stem));
    }
    let ghost gs = groups_view(ordered@);

    // every bidegree the reference expects at this stem must be observed
    let en = exp.len();
    let mut e: usize = 0;
    while e < en
        invariant
            en == exp@.len(),
            0 <= e <= en,
            ev == crate::reference::refs_view(exp@),
            gs == groups_view(ordered@),
            gs == spec_issue_groups(*data, bot_trunc, top_trunc, stem),
            forall|q: int|
                0 <= q < e && (#[trigger] ev[q]).stem == stem ==> grp_index(gs, ev[q].af) != -1,
        decreases en - e,
    {
        proof {
            assert(ev[e as int] == exp@[e as int]@);
        }
        if exp[e].stem == stem {
            let af_wanted = exp[e].af;
            let on = ordered.len();
            let mut k: usize = 0;
            let mut found = false;
            while k < on
                invariant_except_break
                    on == ordered@.len(),
                    0 <= k <= on,
                    !found,
                    gs == groups_view(ordered@),
                    forall|q: int| 0 <= q < k ==> (#[trigger] gs[q]).0 != af_wanted,
                ensures
                    gs == groups_view(ordered@),
                    found ==> k < on && gs[k as int].0 == af_wanted,
                    !found ==> forall|q: int| 0 <= q < on ==> (#[trigger] gs[q]).0 != af_wanted,
                decreases on - k,
            {
                proof {
                    assert(gs[k as int].0 == ordered@[k as int].0);
                }
                if ordered[k].0 == af_wanted {
                    found = true;
                    break;
                }
                k = k + 1;
            }
            if !found {
                proof {
                    lemma_grp_index(gs, af_wanted);
                    if grp_index(gs, af_wanted) >= 0 {
                        assert(gs[grp_index(gs, af_wanted)].0 == af_wanted);
                    }
                    assert(grp_index(gs, af_wanted) == -1);
                    lemma_first_missing(gs, ev, stem);
                    let fm = spec_first_missing(gs, ev, stem);
                    assert(fm >= 0);
                    if fm < e as int {
                        assert(ev[fm].stem == stem && grp_index(gs, ev[fm].af) == -1);
                    }
                    if fm > e as int {
                        assert(!((ev[e as int]).stem == stem && grp_index(
                            gs,
                            ev[e as int].af,
                        ) == -1));
                    }
                    assert(fm == e as int);
                }
                return Err(SolverFailure::MissingBidegree { stem, af: af_wanted });
            }
            proof {
                lemma_grp_index(gs, af_wanted);
            }
        }
        e = e + 1;
    }
    proof {
        assert(!spec_missing_bidegree(gs, ev, stem));
    }

    // hold each observed group against the reference
    let mut issues: Vec<Issue> = Vec::new();
    let on = ordered.len();
    let mut k: usize = 0;
    proof {
        assert(issues_view(issues@) =~~= spec_issues(
            gs.take(0),
            ev,
            bot_trunc,
            top_trunc,
            stem,
        ));
    }
    while k < on
        invariant
            on == ordered@.len(),
            en == exp@.len(),
            0 <= k <= on,
            ev == crate::reference::refs_view(exp@),
            gs == groups_view(ordered@),
            gs == spec_issue_groups(*data, bot_trunc, top_trunc, stem),
            issues_view(issues@) == spec_issues(
                gs.take(k as int),
                ev,
                bot_trunc,
                top_trunc,
                stem,
            ),
        decreases on - k,
    {
        let af = ordered[k].0;
        proof {
            assert(gs[k as int] == (ordered@[k as int].0, obs_view(ordered@[k as int].1@)));
            assert(gs.take(k + 1).drop_last() =~= gs.take(k as int));
            assert(gs.take(k + 1).last() == gs[k as int]);
        }
        let mut group: Vec<ObsEntry> = Vec::new();
        let gl = ordered[k].1.len();
        let mut q: usize = 0;
        while q < gl
            invariant
                k < on == ordered@.len(),
                gl == ordered@[k as int].1@.len(),
                0 <= q <= gl,
                obs_view(group@) == obs_view(ordered@[k as int].1@).take(q as int),
            decreases gl - q,
        {
            proof {
                assert(obs_view(ordered@[k as int].1@)[q as int] == ordered@[k as int].1@[
                    q as int
                ]@);
            }
            let ghost gb = group@;
            let ce = clone_obs(&ordered[k].1[q]);
            let ghost cef = ce;
            group.push(ce);
            proof {
                lemma_obs_view_push(gb, cef);
                let src = obs_view(ordered@[k as int].1@);
                assert(src.take(q + 1) =~= src.take(q as int).push(src[q as int]));
                assert(obs_view(group@) =~~= src.take(q + 1));
            }
            q = q + 1;
        }
        proof {
            assert(obs_view(group@) =~~= obs_view(ordered@[k as int].1@));
        }
        let sorted = sort_obs(group);
        let ghost sm = spec_sort_obs(gs[k as int].1);
        proof {
            assert(obs_view(sorted@) == sm);
        }

        // find the reference entry of this bidegree
        let mut e: usize = 0;
        let mut found = false;
        while e < en
            invariant_except_break
                en == exp@.len(),
                0 <= e <= en,
                !found,
                ev == crate::reference::refs_view(exp@),
                forall|q2: int|
                    0 <= q2 < e ==> !((#[trigger] ev[q2]).stem == stem && ev[q2].af == af),
            ensures
                ev == crate::reference::refs_view(exp@),
                found ==> e < en && ev[e as int].stem == stem && ev[e as int].af == af
                    && forall|q2: int|
                    0 <= q2 < e ==> !((#[trigger] ev[q2]).stem == stem && ev[q2].af == af),
                !found ==> forall|q2: int|
                    0 <= q2 < en ==> !((#[trigger] ev[q2]).stem == stem && ev[q2].af == af),
            decreases en - e,
        {
            proof {
                assert(ev[e as int] == exp@[e as int]@);
            }
            if exp[e].stem == stem && exp[e].af == af {
                found = true;
                break;
            }
            e = e + 1;
        }
        proof {
            crate::reference::lemma_ref_index(ev, stem, af);
            if found {
                if crate::reference::ref_index(ev, stem, af) != e as int {
                    assert(false);
                }
            } else {
                if crate::reference::ref_index(ev, stem, af) >= 0 {
                    assert(false);
                }
            }
        }
        if found {
            let mut pages: Vec<Torsion> = Vec::new();
            let pn = exp[e].pages.len();
            let mut p: usize = 0;
            while p < pn
                invariant
                    e < en == exp@.len(),
                    pn == exp@[e as int].pages@.len(),
                    0 <= p <= pn,
                    pages@ == exp@[e as int].pages@.take(p as int),
                decreases pn - p,
            {
                pages.push(exp[e].pages[p]);
                proof {
                    assert(pages@ =~= exp@[e as int].pages@.take(p + 1));
                }
                p = p + 1;
            }
            proof {
                assert(pages@ =~= exp@[e as int].pages@);
                assert(pages@ == ev[e as int].pages);
            }
            if !torsions_equal(&sorted, &pages) {
                issues.push(Issue { bot_trunc, top_trunc, stem, af, obs: sorted, exp: pages });
                proof {
                    assert(issues_view(issues@) =~~= spec_issues(
                        gs.take(k + 1),
                        ev,
                        bot_trunc,
                        top_trunc,
                        stem,
                    ));
                }
            } else {
                proof {
                    assert(issues_view(issues@) =~~= spec_issues(
                        gs.take(k + 1),
                        ev,
                        bot_trunc,
                        top_trunc,
                        stem,
                    ));
                }
            }
        } else {
            let empty_exp: Vec<Torsion> = Vec::new();
            issues.push(Issue { bot_trunc, top_trunc, stem, af, obs: sorted, exp: empty_exp });
            proof {
                assert(issues_view(issues@) =~~= spec_issues(
                    gs.take(k + 1),
                    ev,
                    bot_trunc,
                    top_trunc,
                    stem,
                ));
            }
        }
        k = k + 1;
    }
    proof {
        assert(gs.take(on as int) =~~= gs);
    }
    Ok(issues)
}

/// Merge-diff of a sorted observed group against a sorted expected list:
/// what stands only in the observed side and only in the expected side.
pub open spec fn spec_diff_sorted(a: Seq<ObsModel>, b: Seq<Torsion>) -> (Seq<ObsModel>, Seq<
    Torsion,
>)
    decreases a.len() + b.len(),
{
    if a.len() == 0 {
        (Seq::empty(), b)
    } else if b.len() == 0 {
        (a, Seq::empty())
    } else if tor_lt(a[0].torsion, b[0]) {
        let rest = spec_diff_sorted(a.drop_first(), b);
        (seq![a[0]] + rest.0, rest.1)
    } else if tor_lt(b[0], a[0].torsion) {
        let rest = spec_diff_sorted(a, b.drop_first());
        (rest.0, seq![b[0]] + rest.1)
    } else {
        spec_diff_sorted(a.drop_first(), b.drop_first())
    }
}

/// Diff a sorted observed group against a sorted expected list by
/// torsion, handing back the unmatched entries of each side.
pub fn diff_sorted(a: &Vec<ObsEntry>, b: &Vec<Torsion>) -> (r: (Vec<ObsEntry>, Vec<Torsion>))
    ensures
        obs_view(r.0@) == spec_diff_sorted(obs_view(a@), b@).0,
        r.1@ == spec_diff_sorted(obs_view(a@), b@).1,
{
    let ghost av = obs_view(a@);
    let mut only_a: Vec<ObsEntry> = Vec::new();
    let mut only_b: Vec<Torsion> = Vec::new();
    let na = a.len();
    let nb = b.len();
    let mut i: usize = 0;
    let mut j: usize = 0;
    proof {
        assert(av.skip(0) =~~= av);
        assert(b@.skip(0) =~= b@);
        assert(obs_view(only_a@) + spec_diff_sorted(av, b@).0 =~~= spec_diff_sorted(av, b@).0);
        assert(only_b@ + spec_diff_sorted(av, b@).1 =~= spec_diff_sorted(av, b@).1);
    }
    while i < na && j < nb
        invariant
            na == a@.len(),
            nb == b@.len(),
            av == obs_view(a@),
            0 <= i <= na,
            0 <= j <= nb,
            spec_diff_sorted(av, b@).0 == obs_view(only_a@) + spec_diff_sorted(
                av.skip(i as int),
                b@.skip(j as int),
            ).0,
            spec_diff_sorted(av, b@).1 == only_b@ + spec_diff_sorted(
                av.skip(i as int),
                b@.skip(j as int),
            ).1,
        decreases na - i + nb - j,
    {
        proof {
            assert(av[i as int] == a@[i as int]@);
            assert(av.skip(i as int)[0] == av[i as int]);
            assert(b@.skip(j as int)[0] == b@[j as int]);
            assert(av.skip(i as int).drop_first() =~~= av.skip(i + 1));
            assert(b@.skip(j as int).drop_first() =~= b@.skip(j + 1));
        }
        if crate::reference::tor_less(a[i].torsion, b[j]) {
            let ghost oab = only_a@;
            let ce = clone_obs(&a[i]);
            let ghost cef = ce;
            only_a.push(ce);
            proof {
                lemma_obs_view_push(oab, cef);
                assert(obs_view(only_a@) + spec_diff_sorted(av.skip(i + 1), b@.skip(j as int)).0
                    =~~= obs_view(oab) + (seq![av[i as int]] + spec_diff_sorted(
                    av.skip(i + 1),
                    b@.skip(j as int),
                ).0));
            }
            i = i + 1;
        } else if crate::reference::tor_less(b[j], a[i].torsion) {
            only_b.push(b[j]);
            proof {
                assert(only_b@.drop_last() + (seq![b@[j as int]] + spec_diff_sorted(
                    av.skip(i as int),
                    b@.skip(j + 1),
                ).1) =~= only_b@ + spec_diff_sorted(av.skip(i as int), b@.skip(j + 1)).1);
            }
            j = j + 1;
        } else {
            i = i + 1;
            j = j + 1;
        }
    }
    // remaining tails
    while i < na
        invariant
            na == a@.len(),
            nb == b@.len(),
            av == obs_view(a@),
            0 <= i <= na,
            0 <= j <= nb,
            i < na ==> j >= nb,
            spec_diff_sorted(av, b@).0 == obs_view(only_a@) + spec_diff_sorted(
                av.skip(i as int),
                b@.skip(j as int),
            ).0,
            spec_diff_sorted(av, b@).1 == only_b@ + spec_diff_sorted(
                av.skip(i as int),
                b@.skip(j as int),
            ).1,
        decreases na - i,
    {
        proof {
            assert(b@.skip(j as int).len() == 0);
            assert(av[i as int] == a@[i as int]@);
            assert(av.skip(i as int)[0] == av[i as int]);
        }
        let ghost oab = only_a@;
        let ce = clone_obs(&a[i]);
        let ghost cef = ce;
        only_a.push(ce);
        proof {
            lemma_obs_view_push(oab, cef);
            assert(av.skip(i as int) =~~= seq![av[i as int]] + av.skip(i + 1));
            assert(spec_diff_sorted(av.skip(i as int), b@.skip(j as int)).0 == av.skip(i as int));
            assert(spec_diff_sorted(av.skip(i + 1), b@.skip(j as int)).0 == av.skip(i + 1));
            assert(obs_view(only_a@) + av.skip(i + 1) =~~= obs_view(oab) + av.skip(i as int));
        }
        i = i + 1;
    }
    while j < nb
        invariant
            na == a@.len(),
            nb == b@.len(),
            av == obs_view(a@),
            0 <= i <= na,
            0 <= j <= nb,
            j < nb ==> i >= na,
            spec_diff_sorted(av, b@).0 == obs_view(only_a@) + spec_diff_sorted(
                av.skip(i as int),
                b@.skip(j as int),
            ).0,
            spec_diff_sorted(av, b@).1 == only_b@ + spec_diff_sorted(
                av.skip(i as int),
                b@.skip(j as int),
            ).1,
        decreases nb - j,
    {
        proof {
            assert(av.skip(i as int).len() == 0);
            assert(b@.skip(j as int)[0] == b@[j as int]);
        }
        only_b.push(b[j]);
        proof {
            assert(b@.skip(j as int) =~= seq![b@[j as int]] + b@.skip(j + 1));
            assert(only_b@.drop_last() + (seq![b@[j as int]] + b@.skip(j + 1)) =~= only_b@
                + b@.skip(j + 1));
            assert(spec_diff_sorted(av.skip(i as int), b@.skip(j as int)).1 == b@.skip(j as int));
            assert(spec_diff_sorted(av.skip(i as int), b@.skip(j + 1)).1 == b@.skip(j + 1));
        }
        j = j + 1;
    }
    proof {
        assert(av.skip(i as int).len() == 0 && b@.skip(j as int).len() == 0);
        assert(obs_view(only_a@) + Seq::<ObsModel>::empty() =~~= obs_view(only_a@));
        assert(only_b@ + Seq::<Torsion>::empty() =~= only_b@);
        assert(spec_diff_sorted(av, b@).0 =~~= obs_view(only_a@));
        assert(spec_diff_sorted(av, b@).1 =~= only_b@);
    }
    (only_a, only_b)
}

/// The integer a torsion state stands for during candidate search, if it
/// carries one.
fn torsion_value(t: Torsion) -> (r: Option<i32>)
    ensures
        match t {
            Torsion::Free => r is None,
            Torsion::Zero => r == Some(0i32),
            Torsion::Val(k) => r == Some(k),
        },
{
    match t {
        Torsion::Free => None,
        Torsion::Zero => Some(0),
        Torsion::Val(k) => Some(k),
    }
}

/// The recorded integer of a torsion state, if it carries one.
pub open spec fn spec_tor_value(t: Torsion) -> Option<int> {
    match t {
        Torsion::Free => None,
        Torsion::Zero => Some(0int),
        Torsion::Val(k) => Some(k as int),
    }
}

/// Whether a source can support a differential onto the target at all:
/// it must fire after the page it last supported, and its torsion must be
/// compatible with what the target carries.
pub open spec fn spec_source_works(
    src: crate::processor::SourceRowModel,
    t_torsion: Torsion,
    t_y: i32,
    exp_torsion: i32,
    diff_af: int,
) -> bool {
    let d_r = src.y - t_y;
    &&& d_r > src.page
    &&& match spec_tor_value(t_torsion) {
        Some(obs) => match spec_tor_value(src.torsion) {
            Some(st) => obs - exp_torsion - diff_af <= st,
            None => true,
        },
        None => spec_tor_value(src.torsion) is None,
    }
}

/// The double-differential candidates one under-filtration source forms
/// with the partners of the first `upto` sources: the recorded heuristic
/// that at most two simultaneous sources support a target.
pub open spec fn spec_fdft_pairs(
    all: Seq<crate::processor::SourceRowModel>,
    upto: int,
    src: crate::processor::SourceRowModel,
    t_name: Seq<char>,
    t_y: i32,
    exp_torsion: i32,
    needed_af: int,
) -> Seq<SolutionModel>
    decreases upto,
{
    if upto <= 0 {
        Seq::empty()
    } else {
        let rest = spec_fdft_pairs(all, upto - 1, src, t_name, t_y, exp_torsion, needed_af);
        let t_src = all[upto - 1];
        let d_r = src.y - t_y;
        let diff_af = needed_af - src.filtration;
        let t_d_r = t_src.y - t_y;
        let coeff1 = exp_torsion + diff_af;
        if spec_tor_value(t_src.torsion) == Some(diff_af) && t_src.filtration == needed_af
            && t_d_r >= d_r && t_d_r >= t_src.page && crate::processor::fits_i32(d_r)
            && crate::processor::fits_i32(t_d_r) && crate::processor::fits_i32(coeff1) {
            rest.push(
                SolutionModel::DoubleDiff(
                    DiffSolModel {
                        from: src.name,
                        to: t_name,
                        coeff: coeff1 as i32,
                        d: d_r as i32,
                    },
                    DiffSolModel {
                        from: t_src.name,
                        to: t_name,
                        coeff: exp_torsion,
                        d: t_d_r as i32,
                    },
                ),
            )
        } else {
            rest
        }
    }
}

/// What one source contributes to the candidate search.
pub open spec fn spec_fdft_one(
    all: Seq<crate::processor::SourceRowModel>,
    src: crate::processor::SourceRowModel,
    t_name: Seq<char>,
    t_torsion: Torsion,
    t_y: i32,
    exp_torsion: i32,
    needed_af: int,
) -> Seq<SolutionModel> {
    if src.filtration > needed_af {
        Seq::empty()
    } else {
        let d_r = src.y - t_y;
        let diff_af = needed_af - src.filtration;
        let works = spec_source_works(src, t_torsion, t_y, exp_torsion, diff_af);
        if works && src.filtration == needed_af {
            if crate::processor::fits_i32(d_r) {
                seq![
                    SolutionModel::Diff(
                        DiffSolModel {
                            from: src.name,
                            to: t_name,
                            coeff: exp_torsion,
                            d: d_r as i32,
                        },
                    ),
                ]
            } else {
                Seq::empty()
            }
        } else if works {
            spec_fdft_pairs(all, all.len() as int, src, t_name, t_y, exp_torsion, needed_af)
        } else {
            Seq::empty()
        }
    }
}

/// The candidates of the first `upto` sources, in source order.
pub open spec fn spec_fdft(
    all: Seq<crate::processor::SourceRowModel>,
    upto: int,
    t_name: Seq<char>,
    t_torsion: Torsion,
    t_af: i32,
    t_y: i32,
    exp_torsion: i32,
) -> Seq<SolutionModel>
    decreases upto,
{
    if upto <= 0 {
        Seq::empty()
    } else {
        spec_fdft(all, upto - 1, t_name, t_torsion, t_af, t_y, exp_torsion) + spec_fdft_one(
            all,
            all[upto - 1],
            t_name,
            t_torsion,
            t_y,
            exp_torsion,
            t_af - exp_torsion - 1,
        )
    }
}

/// The values of a source list.
pub open spec fn sources_view(v: Seq<SourceRow>) -> Seq<crate::processor::SourceRowModel> {
    v.map_values(|s: SourceRow| s@)
}

/// Search the possible sources for differentials that would land on the
/// target with the expected torsion: either one source at exactly the
/// needed filtration, or a pair of sources whose torsions make a pair of
/// differentials jointly consistent.  The result is exactly the
/// candidate list of the source list, in order; the pair search is a
/// recorded heuristic assuming at most two simultaneous sources.
pub fn find_diffs_for_target(
    sources: &Vec<SourceRow>,
    t_name: &String,
    t_torsion: Torsion,
    t_af: i32,
    t_y: i32,
    exp_torsion: i32,
) -> (r: Vec<Solution>)
    ensures
        sols_view(r@) == spec_fdft(
            sources_view(sources@),
            sources@.len() as int,
            t_name@,
            t_torsion,
            t_af,
            t_y,
            exp_torsion,
        ),
{
    let ghost all = sources_view(sources@);
    let needed_af: i64 = t_af as i64 - exp_torsion as i64 - 1;
    let mut sols: Vec<Solution> = Vec::new();
    let n = sources.len();
    let mut i: usize = 0;
    proof {
        assert(sols_view(sols@) =~~= spec_fdft(all, 0, t_name@, t_torsion, t_af, t_y, exp_torsion));
    }
    while i < n
        invariant
            n == sources@.len(),
            0 <= i <= n,
            all == sources_view(sources@),
            needed_af == t_af - exp_torsion - 1,
            sols_view(sols@) == spec_fdft(
                all,
                i as int,
                t_name@,
                t_torsion,
                t_af,
                t_y,
                exp_torsion,
            ),
        decreases n - i,
    {
        let src = &sources[i];
        let ghost base = sols_view(sols@);
        proof {
            assert(all[i as int] == sources@[i as int]@);
        }
        if src.filtration as i64 <= needed_af {
            let d_r: i64 = src.y as i64 - t_y as i64;
            let diff_af: i64 = needed_af - src.filtration as i64;
            let mut works = false;
            if d_r > src.page as i64 {
                match torsion_value(t_torsion) {
                    Some(obs_torsion) => {
                        match torsion_value(src.torsion) {
                            Some(src_torsion) => {
                                if obs_torsion as i64 - exp_torsion as i64 - diff_af
                                    <= src_torsion as i64 {
                                    works = true;
                                }
                            },
                            None => {
                                works = true;
                            },
                        }
                    },
                    None => {
                        match torsion_value(src.torsion) {
                            Some(_) => {},
                            None => {
                                works = true;
                            },
                        }
                    },
                }
            }
            proof {
                assert(works == spec_source_works(
                    all[i as int],
                    t_torsion,
                    t_y,
                    exp_torsion,
                    diff_af as int,
                ));
            }
            if works && src.filtration as i64 == needed_af {
                if i32::MIN as i64 <= d_r && d_r <= i32::MAX as i64 {
                    let nsol = Solution::Diff(
                        DiffSolution {
                            from: src.name.clone(),
                            to: t_name.clone(),
                            coeff: exp_torsion,
                            d: d_r as i32,
                        },
                    );
                    let ghost nsolg = nsol;
                    let ghost sb = sols@;
                    sols.push(nsol);
                    proof {
                        lemma_sols_view_push(sb, nsolg);
                    }
                }
            } else if works {
                // look for a second supporting differential
                let ghost pair_base = sols_view(sols@);
                let mut j: usize = 0;
                proof {
                    assert(pair_base + spec_fdft_pairs(
                        all,
                        0,
                        all[i as int],
                        t_name@,
                        t_y,
                        exp_torsion,
                        needed_af as int,
                    ) =~~= pair_base);
                }
                while j < n
                    invariant
                        n == sources@.len(),
                        0 <= i < n,
                        0 <= j <= n,
                        all == sources_view(sources@),
                        needed_af == t_af - exp_torsion - 1,
                        *src == sources@[i as int],
                        all[i as int] == sources@[i as int]@,
                        d_r == all[i as int].y - t_y,
                        diff_af == needed_af - all[i as int].filtration,
                        sols_view(sols@) == pair_base + spec_fdft_pairs(
                            all,
                            j as int,
                            all[i as int],
                            t_name@,
                            t_y,
                            exp_torsion,
                            needed_af as int,
                        ),
                    decreases n - j,
                {
                    let t_src = &sources[j];
                    proof {
                        assert(all[j as int] == sources@[j as int]@);
                    }
                    match torsion_value(t_src.torsion) {
                        Some(t_tor) => {
                            if t_tor as i64 == diff_af && t_src.filtration as i64 == needed_af {
                                let t_d_r: i64 = t_src.y as i64 - t_y as i64;
                                if t_d_r >= d_r && t_d_r >= t_src.page as i64 {
                                    let coeff1: i64 = exp_torsion as i64 + diff_af;
                                    if i32::MIN as i64 <= d_r && d_r <= i32::MAX as i64
                                        && i32::MIN as i64 <= t_d_r && t_d_r
                                        <= i32::MAX as i64 && i32::MIN as i64 <= coeff1 && coeff1
                                        <= i32::MAX as i64 {
                                        let ghost sb = sols@;
                                        sols.push(
                                            Solution::DoubleDiff(
                                                DiffSolution {
                                                    from: src.name.clone(),
                                                    to: t_name.clone(),
                                                    coeff: coeff1 as i32,
                                                    d: d_r as i32,
                                                },
                                                DiffSolution {
                                                    from: t_src.name.clone(),
                                                    to: t_name.clone(),
                                                    coeff: exp_torsion,
                                                    d: t_d_r as i32,
                                                },
                                            ),
                                        );
                                        proof {
                                            assert(sols_view(sols@) =~~= sols_view(sb).push(
                                                sols@.last()@,
                                            ));
                                            assert(sols_view(sols@) =~~= pair_base
                                                + spec_fdft_pairs(
                                                all,
                                                j as int + 1,
                                                all[i as int],
                                                t_name@,
                                                t_y,
                                                exp_torsion,
                                                needed_af as int,
                                            ));
                                        }
                                    }
                                }
                            }
                        },
                        None => {},
                    }
                    proof {
                        assert(sols_view(sols@) =~~= pair_base + spec_fdft_pairs(
                            all,
                            j as int + 1,
                            all[i as int],
                            t_name@,
                            t_y,
                            exp_torsion,
                            needed_af as int,
                        ));
                    }
                    j = j + 1;
                }
            }
        }
        proof {
            assert(sols_view(sols@) =~~= spec_fdft(
                all,
                i as int + 1,
                t_name@,
                t_torsion,
                t_af,
                t_y,
                exp_torsion,
            ));
        }
        i = i + 1;
    }
    sols
}

fn clone_torsions(v: &Vec<Torsion>) -> (r: Vec<Torsion>)
    ensures
        r@ == v@,
{
    let mut r: Vec<Torsion> = Vec::new();
    let n = v.len();
    let mut i: usize = 0;
    while i < n
        invariant
            n == v@.len(),
            0 <= i <= n,
            r@ == v@.take(i as int),
        decreases n - i,
    {
        r.push(v[i]);
        proof {
            assert(r@ =~= v@.take(i + 1));
        }
        i = i + 1;
    }
    proof {
        assert(v@.take(n as int) =~= v@);
    }
    r
}

fn clone_obs_list(v: &Vec<ObsEntry>) -> (r: Vec<ObsEntry>)
    ensures
        r@ == v@,
{
    let mut r: Vec<ObsEntry> = Vec::new();
    let n = v.len();
    let mut i: usize = 0;
    while i < n
        invariant
            n == v@.len(),
            0 <= i <= n,
            r@ == v@.take(i as int),
        decreases n - i,
    {
        r.push(clone_obs(&v[i]));
        proof {
            assert(r@ =~= v@.take(i + 1));
        }
        i = i + 1;
    }
    proof {
        assert(v@.take(n as int) =~= v@);
    }
    r
}

/// Two issues that carry the same mismatch.
pub open spec fn issue_like(a: Issue, b: Issue) -> bool {
    &&& a.bot_trunc == b.bot_trunc
    &&& a.top_trunc == b.top_trunc
    &&& a.stem == b.stem
    &&& a.af == b.af
    &&& a.obs@ == b.obs@
    &&& a.exp@ == b.exp@
}

fn clone_issue(i: &Issue) -> (r: Issue)
    ensures
        issue_like(r, *i),
{
    Issue {
        bot_trunc: i.bot_trunc,
        top_trunc: i.top_trunc,
        stem: i.stem,
        af: i.af,
        obs: clone_obs_list(&i.obs),
        exp: clone_torsions(&i.exp),
    }
}

fn clone_diff_solution(d: &DiffSolution) -> (r: DiffSolution)
    ensures
        r == *d,
{
    DiffSolution { from: d.from.clone(), to: d.to.clone(), coeff: d.coeff, d: d.d }
}

fn clone_solution(s: &Solution) -> (r: Solution)
    ensures
        r == *s,
{
    match s {
        Solution::Diff(d) => Solution::Diff(clone_diff_solution(d)),
        Solution::DoubleDiff(d1, d2) => Solution::DoubleDiff(
            clone_diff_solution(d1),
            clone_diff_solution(d2),
        ),
        Solution::Tau(t) => Solution::Tau(
            TauMultSolution { from: t.from.clone(), to: t.to.clone() },
        ),
    }
}

/// Whether an issue has fewer observed than expected entries: the one
/// mismatch shape the candidate search does not cover.
pub open spec fn issue_underfull(i: IssueModel) -> bool {
    i.obs.len() < i.exp.len()
}

/// The values of a proposed (issue, candidates) list.
pub open spec fn pairs_view(v: Seq<(Issue, Vec<Solution>)>) -> Seq<(IssueModel, Seq<SolutionModel>)> {
    v.map_values(|p: (Issue, Vec<Solution>)| (p.0@, sols_view(p.1@)))
}

/// Viewing distributes over appending a proposed pair.
pub proof fn lemma_pairs_view_push(v: Seq<(Issue, Vec<Solution>)>, p: (Issue, Vec<Solution>))
    ensures
        pairs_view(v.push(p)) == pairs_view(v).push((p.0@, sols_view(p.1@))),
{
    assert(pairs_view(v.push(p)) =~~= pairs_view(v).push((p.0@, sols_view(p.1@))));
}

/// The nonzero torsion integer of an expected entry.
pub open spec fn spec_tor_i32(t: Torsion) -> i32 {
    match t {
        Torsion::Free => 0,
        Torsion::Zero => 0,
        Torsion::Val(k) => k,
    }
}

/// The possible sources the candidate search draws from: the stem above,
/// after a full synthetic replay.
pub open spec fn spec_fs_sources(
    data: SyntheticEHP,
    bot_trunc: i32,
    top_trunc: i32,
    stem: i32,
) -> Seq<crate::processor::SourceRowModel> {
    crate::processor::spec_sources(
        crate::processor::spec_filtered(
            data,
            Category::Synthetic,
            0,
            1000,
            1000,
            Some((stem + 1) as i32),
        ).0,
        bot_trunc,
        top_trunc,
    )
}

/// The surviving targets of the stem under the window.
pub open spec fn spec_fs_target(
    data: SyntheticEHP,
    bot_trunc: i32,
    top_trunc: i32,
    stem: i32,
) -> Seq<crate::processor::FinalRowModel> {
    crate::processor::spec_final_rows(
        crate::processor::spec_filtered(
            data,
            Category::Synthetic,
            bot_trunc,
            (top_trunc + 1) as i32,
            1000,
            Some(stem),
        ).0,
    )
}

/// The tau candidates a surplus source list contributes: one pair per
/// surplus entry whose torsion names the filtration gap and whose
/// grading allows the multiplication.
pub open spec fn spec_tau_entries(
    d0: Seq<ObsModel>,
    upto: int,
    stem_diff: int,
    t_y: i32,
    i: IssueModel,
    tgt_name: Seq<char>,
) -> Seq<(IssueModel, Seq<SolutionModel>)>
    decreases upto,
{
    if upto <= 0 {
        Seq::empty()
    } else {
        let rest = spec_tau_entries(d0, upto - 1, stem_diff, t_y, i, tgt_name);
        let source = d0[upto - 1];
        if spec_tor_value(source.torsion) == Some(stem_diff) && t_y <= source.y {
            rest.push(
                (i, seq![SolutionModel::Tau(TauSolModel { from: source.name, to: tgt_name })]),
            )
        } else {
            rest
        }
    }
}

/// The tau candidates drawn from the first `upto` issues.
pub open spec fn spec_tau_scan(
    issues: Seq<IssueModel>,
    upto: int,
    i: IssueModel,
    t_y: i32,
    tgt_name: Seq<char>,
) -> Seq<(IssueModel, Seq<SolutionModel>)>
    decreases upto,
{
    if upto <= 0 {
        Seq::empty()
    } else {
        let rest = spec_tau_scan(issues, upto - 1, i, t_y, tgt_name);
        let j = issues[upto - 1];
        let stem_diff = j.af - i.af;
        if stem_diff > 0 {
            rest + spec_tau_entries(
                spec_diff_sorted(j.obs, j.exp).0,
                spec_diff_sorted(j.obs, j.exp).0.len() as int,
                stem_diff,
                t_y,
                i,
                tgt_name,
            )
        } else {
            rest
        }
    }
}

/// The differential candidates of every surviving target of a bidegree.
pub open spec fn spec_pot_targets(
    target: Seq<crate::processor::FinalRowModel>,
    upto: int,
    sources: Seq<crate::processor::SourceRowModel>,
    af: i32,
    exp_torsion: i32,
) -> Seq<SolutionModel>
    decreases upto,
{
    if upto <= 0 {
        Seq::empty()
    } else {
        let rest = spec_pot_targets(target, upto - 1, sources, af, exp_torsion);
        let t = target[upto - 1];
        if t.filtration == af && t.torsion != Torsion::Zero {
            rest + spec_fdft(
                sources,
                sources.len() as int,
                t.name,
                t.torsion,
                t.filtration,
                t.y,
                exp_torsion,
            )
        } else {
            rest
        }
    }
}

/// What one issue contributes to the candidate search.
pub open spec fn spec_solutions_one(
    issues: Seq<IssueModel>,
    i: IssueModel,
    sources: Seq<crate::processor::SourceRowModel>,
    target: Seq<crate::processor::FinalRowModel>,
) -> Seq<(IssueModel, Seq<SolutionModel>)> {
    if i.obs.len() > i.exp.len() {
        let d = spec_diff_sorted(i.obs, i.exp);
        let taus = spec_tau_scan(issues, issues.len() as int, i, i.obs[0].y, i.obs[0].name);
        if d.0.len() == 1 && d.1.len() == 0 {
            taus.push((i, spec_pot_targets(target, target.len() as int, sources, i.af, 0)))
        } else {
            taus
        }
    } else if i.obs.len() == i.exp.len() {
        let d = spec_diff_sorted(i.obs, i.exp);
        if d.0.len() == 1 && d.1.len() == 1 && spec_tor_value(d.1[0]) is Some {
            seq![
                (
                    i,
                    spec_pot_targets(
                        target,
                        target.len() as int,
                        sources,
                        i.af,
                        spec_tor_i32(d.1[0]),
                    ),
                ),
            ]
        } else {
            Seq::empty()
        }
    } else {
        Seq::empty()
    }
}

/// The candidate sets proposed for the first `upto` issues, in order.
pub open spec fn spec_solutions(
    issues: Seq<IssueModel>,
    upto: int,
    sources: Seq<crate::processor::SourceRowModel>,
    target: Seq<crate::processor::FinalRowModel>,
) -> Seq<(IssueModel, Seq<SolutionModel>)>
    decreases upto,
{
    if upto <= 0 {
        Seq::empty()
    } else {
        spec_solutions(issues, upto - 1, sources, target) + spec_solutions_one(
            issues,
            issues[upto - 1],
            sources,
            target,
        )
    }
}

/// Propose candidate resolutions for the issues of one stem: a surplus
/// observed entry is matched by a tau multiplication from a surplus
/// source in another filtration, or by a missing differential from the
/// next stem; a swapped entry is matched by a differential (or a jointly
/// consistent pair) with the expected torsion.  The result is exactly
/// the candidate sets of the issue list; an issue with fewer observed
/// than expected entries aborts the search.
pub fn find_solutions(
    data: &SyntheticEHP,
    bot_trunc: i32,
    top_trunc: i32,
    stem: i32,
    issues: &Vec<Issue>,
) -> (r: Result<Vec<(Issue, Vec<Solution>)>, SolverFailure>)
    requires
        data.torsion_wf(),
        top_trunc < i32::MAX,
        stem < i32::MAX,
    ensures
        r is Ok <==> !(exists|k: int|
            0 <= k < issues@.len() && issue_underfull(#[trigger] issues_view(issues@)[k])),
        match r {
            Ok(sols) => pairs_view(sols@) == spec_solutions(
                issues_view(issues@),
                issues@.len() as int,
                spec_fs_sources(*data, bot_trunc, top_trunc, stem),
                spec_fs_target(*data, bot_trunc, top_trunc, stem),
            ),
            Err(e) => e is UnexpectedIssueShape,
        },
{
    let ghost iv = issues_view(issues@);
    let mut sols: Vec<(Issue, Vec<Solution>)> = Vec::new();

    let sources = find_possible_sources_for_differentials_in_stem(
        data,
        stem + 1,
        bot_trunc,
        top_trunc,
    );
    let ghost srcv = spec_fs_sources(*data, bot_trunc, top_trunc, stem);
    proof {
        assert(sources_view(sources@) == srcv);
    }
    let (pages, _diags) = get_filtered_data(
        data,
        Category::Synthetic,
        bot_trunc,
        top_trunc + 1,
        1000,
        Some(stem),
    );
    let target = pages.get_final_page();
    let ghost tgtv = spec_fs_target(*data, bot_trunc, top_trunc, stem);
    proof {
        assert(target@.map_values(|f: crate::processor::FinalRow| f@) == tgtv);
    }

    let n = issues.len();
    let mut i: usize = 0;
    proof {
        assert(pairs_view(sols@) =~~= spec_solutions(iv, 0, srcv, tgtv));
    }
    while i < n
        invariant
            n == issues@.len(),
            0 <= i <= n,
            data.torsion_wf(),
            iv == issues_view(issues@),
            iv.len() == n,
            srcv == sources_view(sources@),
            tgtv == target@.map_values(|f: crate::processor::FinalRow| f@),
            forall|k: int| 0 <= k < i ==> !issue_underfull(#[trigger] iv[k]),
            pairs_view(sols@) == spec_solutions(iv, i as int, srcv, tgtv),
        decreases n - i,
    {
        let issue = &issues[i];
        let ghost im = iv[i as int];
        let ghost base = pairs_view(sols@);
        proof {
            assert(iv[i as int] == issues@[i as int]@);
        }
        if issue.obs.len() > issue.exp.len() {
            let diff = diff_sorted(&issue.obs, &issue.exp);
            let ghost dm = spec_diff_sorted(im.obs, im.exp);

            // a surplus entry may be explained by a tau multiplication
            // from a surplus source some filtrations higher
            let t_y = issue.obs[0].y;
            let ghost tgt_name = im.obs[0].name;
            proof {
                assert(obs_view(issues@[i as int].obs@)[0] == issues@[i as int].obs@[0]@);
            }
            let mut j: usize = 0;
            proof {
                assert(base + spec_tau_scan(iv, 0, im, t_y, tgt_name) =~~= base);
            }
            while j < n
                invariant
                    n == issues@.len(),
                    0 <= i < n,
                    0 <= j <= n,
                    iv == issues_view(issues@),
                    iv.len() == n,
                    im == iv[i as int],
                    im.obs.len() > 0,
                    t_y == im.obs[0].y,
                    tgt_name == im.obs[0].name,
                    pairs_view(sols@) == base + spec_tau_scan(iv, j as int, im, t_y, tgt_name),
                decreases n - j,
            {
                let other = &issues[j];
                let ghost jm = iv[j as int];
                proof {
                    assert(iv[j as int] == issues@[j as int]@);
                }
                let d = diff_sorted(&other.obs, &other.exp);
                let ghost d0v = spec_diff_sorted(jm.obs, jm.exp).0;
                proof {
                    assert(obs_view(d.0@) == d0v);
                }
                let stem_diff: i64 = other.af as i64 - issues[i].af as i64;
                let ghost tau_base = pairs_view(sols@);
                if stem_diff > 0 {
                    let dn = d.0.len();
                    let mut q: usize = 0;
                    proof {
                        assert(tau_base + spec_tau_entries(
                            d0v,
                            0,
                            stem_diff as int,
                            t_y,
                            im,
                            tgt_name,
                        ) =~~= tau_base);
                    }
                    while q < dn
                        invariant
                            dn == d.0@.len(),
                            0 <= q <= dn,
                            n == issues@.len(),
                            0 <= i < n,
                            iv == issues_view(issues@),
                            im == iv[i as int],
                            im.obs.len() > 0,
                            t_y == im.obs[0].y,
                            tgt_name == im.obs[0].name,
                            d0v == obs_view(d.0@),
                            stem_diff == jm.af - im.af,
                            pairs_view(sols@) == tau_base + spec_tau_entries(
                                d0v,
                                q as int,
                                stem_diff as int,
                                t_y,
                                im,
                                tgt_name,
                            ),
                        decreases dn - q,
                    {
                        let source = &d.0[q];
                        proof {
                            assert(d0v[q as int] == d.0@[q as int]@);
                        }
                        let sv = torsion_value(source.torsion);
                        let matches_diff = match sv {
                            Some(v) => v as i64 == stem_diff,
                            None => false,
                        };
                        if matches_diff && t_y <= source.y {
                            let mut one: Vec<Solution> = Vec::new();
                            one.push(
                                Solution::Tau(
                                    TauMultSolution {
                                        from: source.name.clone(),
                                        to: issues[i].obs[0].name.clone(),
                                    },
                                ),
                            );
                            proof {
                                assert(obs_view(issues@[i as int].obs@)[0] == issues@[
                                    i as int
                                ].obs@[0]@);
                                assert(sols_view(one@) =~~= seq![
                                    SolutionModel::Tau(
                                        TauSolModel {
                                            from: d0v[q as int].name,
                                            to: tgt_name,
                                        },
                                    ),
                                ]);
                            }
                            let ci = clone_issue(&issues[i]);
                            proof {
                                assert(ci@ =~~= im);
                            }
                            let ghost sb = sols@;
                            let ghost cig = ci;
                            let ghost oneg = one;
                            sols.push((ci, one));
                            proof {
                                lemma_pairs_view_push(sb, (cig, oneg));
                                assert(pairs_view(sols@) =~~= tau_base + spec_tau_entries(
                                    d0v,
                                    q as int + 1,
                                    stem_diff as int,
                                    t_y,
                                    im,
                                    tgt_name,
                                ));
                            }
                        } else {
                            proof {
                                assert(pairs_view(sols@) =~~= tau_base + spec_tau_entries(
                                    d0v,
                                    q as int + 1,
                                    stem_diff as int,
                                    t_y,
                                    im,
                                    tgt_name,
                                ));
                            }
                        }
                        q = q + 1;
                    }
                    proof {
                        assert(spec_tau_entries(
                            d0v,
                            d0v.len() as int,
                            stem_diff as int,
                            t_y,
                            im,
                            tgt_name,
                        ) == spec_tau_entries(
                            d0v,
                            dn as int,
                            stem_diff as int,
                            t_y,
                            im,
                            tgt_name,
                        ));
                        assert(pairs_view(sols@) =~~= base + spec_tau_scan(
                            iv,
                            j as int + 1,
                            im,
                            t_y,
                            tgt_name,
                        ));
                    }
                } else {
                    proof {
                        assert(pairs_view(sols@) =~~= base + spec_tau_scan(
                            iv,
                            j as int + 1,
                            im,
                            t_y,
                            tgt_name,
                        ));
                    }
                }
                j = j + 1;
            }

            // a lone surplus entry may instead be the target of a
            // missing differential with no recorded torsion
            if diff.0.len() == 1 && diff.1.len() == 0 {
                let pot_sols = collect_targets(&sources, &target, issues[i].af, 0);
                let ci = clone_issue(&issues[i]);
                proof {
                    assert(ci@ =~~= im);
                }
                let ghost sb = sols@;
                let ghost cig = ci;
                let ghost potg = pot_sols;
                sols.push((ci, pot_sols));
                proof {
                    lemma_pairs_view_push(sb, (cig, potg));
                    assert(dm.0.len() == 1 && dm.1.len() == 0);
                    assert(pairs_view(sols@) =~~= base + spec_solutions_one(iv, im, srcv, tgtv));
                }
            } else {
                proof {
                    assert(!(dm.0.len() == 1 && dm.1.len() == 0));
                    assert(pairs_view(sols@) =~~= base + spec_solutions_one(iv, im, srcv, tgtv));
                }
            }
        } else if issue.obs.len() == issue.exp.len() {
            // a swapped entry: one observed and one expected torsion
            // differ, so some differential should supply the expected one
            let (obs1, exp1) = diff_sorted(&issue.obs, &issue.exp);
            let ghost dm = spec_diff_sorted(im.obs, im.exp);
            if obs1.len() == 1 && exp1.len() == 1 {
                let ev = torsion_value(exp1[0]);
                match ev {
                    Some(exp_torsion) => {
                        let pot_sols = collect_targets(
                            &sources,
                            &target,
                            issues[i].af,
                            exp_torsion,
                        );
                        let ci = clone_issue(&issues[i]);
                        proof {
                            assert(ci@ =~~= im);
                        }
                        let ghost sb = sols@;
                        let ghost cig = ci;
                        let ghost potg = pot_sols;
                        sols.push((ci, pot_sols));
                        proof {
                            lemma_pairs_view_push(sb, (cig, potg));
                            assert(exp_torsion == spec_tor_i32(dm.1[0]));
                            assert(pairs_view(sols@) =~~= base + spec_solutions_one(
                                iv,
                                im,
                                srcv,
                                tgtv,
                            ));
                        }
                    },
                    None => {
                        proof {
                            assert(!(spec_tor_value(dm.1[0]) is Some));
                            assert(pairs_view(sols@) =~~= base + spec_solutions_one(
                                iv,
                                im,
                                srcv,
                                tgtv,
                            ));
                        }
                    },
                }
            } else {
                proof {
                    assert(!(dm.0.len() == 1 && dm.1.len() == 1));
                    assert(pairs_view(sols@) =~~= base + spec_solutions_one(iv, im, srcv, tgtv));
                }
            }
        } else {
            return Err(
                SolverFailure::UnexpectedIssueShape { stem: issues[i].stem, af: issues[i].af },
            );
        }
        proof {
            assert(pairs_view(sols@) =~~= spec_solutions(iv, i as int + 1, srcv, tgtv));
        }
        i = i + 1;
    }
    Ok(sols)
}

/// Collect the differential candidates of every surviving target at one
/// filtration.
fn collect_targets(
    sources: &Vec<SourceRow>,
    target: &Vec<crate::processor::FinalRow>,
    af: i32,
    exp_torsion: i32,
) -> (r: Vec<Solution>)
    ensures
        sols_view(r@) == spec_pot_targets(
            target@.map_values(|f: crate::processor::FinalRow| f@),
            target@.len() as int,
            sources_view(sources@),
            af,
            exp_torsion,
        ),
{
    let ghost tgtv = target@.map_values(|f: crate::processor::FinalRow| f@);
    let ghost srcv = sources_view(sources@);
    let mut pot_sols: Vec<Solution> = Vec::new();
    let tn = target.len();
    let mut q: usize = 0;
    proof {
        assert(sols_view(pot_sols@) =~~= spec_pot_targets(tgtv, 0, srcv, af, exp_torsion));
    }
    while q < tn
        invariant
            tn == target@.len(),
            0 <= q <= tn,
            tgtv == target@.map_values(|f: crate::processor::FinalRow| f@),
            srcv == sources_view(sources@),
            sols_view(pot_sols@) == spec_pot_targets(tgtv, q as int, srcv, af, exp_torsion),
        decreases tn - q,
    {
        let t = &target[q];
        let ghost potbase = sols_view(pot_sols@);
        proof {
            assert(tgtv[q as int] == target@[q as int]@);
        }
        if t.filtration == af && !t.torsion.is_zero() {
            let d = find_diffs_for_target(sources, &t.name, t.torsion, t.filtration, t.y, exp_torsion);
            let mut w: usize = 0;
            let dn2 = d.len();
            while w < dn2
                invariant
                    dn2 == d@.len(),
                    0 <= w <= dn2,
                    sols_view(pot_sols@) == potbase + sols_view(d@).take(w as int),
                decreases dn2 - w,
            {
                proof {
                    assert(sols_view(d@)[w as int] == d@[w as int]@);
                }
                let ghost pb = pot_sols@;
                let cs = clone_solution(&d[w]);
                let ghost csf = cs;
                pot_sols.push(cs);
                proof {
                    lemma_sols_view_push(pb, csf);
                    assert(sols_view(d@).take(w as int + 1) =~~= sols_view(d@).take(
                        w as int,
                    ).push(sols_view(d@)[w as int]));
                }
                w = w + 1;
            }
            proof {
                assert(sols_view(d@).take(dn2 as int) =~~= sols_view(d@));
                assert(sols_view(pot_sols@) =~~= spec_pot_targets(
                    tgtv,
                    q as int + 1,
                    srcv,
                    af,
                    exp_torsion,
                ));
            }
        } else {
            proof {
                assert(sols_view(pot_sols@) =~~= spec_pot_targets(
                    tgtv,
                    q as int + 1,
                    srcv,
                    af,
                    exp_torsion,
                ));
            }
        }
        q = q + 1;
    }
    pot_sols
}

/// Whether a proposed candidate set is accepted for its issue: it must
/// have exactly one member, and that member must not share an endpoint
/// with any candidate proposed for a different issue in the same pass.
pub open spec fn spec_keep(sols: Seq<(IssueModel, Seq<SolutionModel>)>, i: int) -> bool {
    &&& sols[i].1.len() == 1
    &&& forall|j: int, q: int|
        0 <= j < sols.len() && j != i && 0 <= q < (#[trigger] sols[j].1).len()
            ==> !spec_share_endpoint(#[trigger] sols[j].1[q], sols[i].1[0])
}

/// The accepted (issue, candidate) pairs of a pass, in order.
pub open spec fn spec_filter_sols(
    sols: Seq<(IssueModel, Seq<SolutionModel>)>,
    upto: int,
) -> Seq<(IssueModel, SolutionModel)>
    decreases upto,
{
    if upto <= 0 {
        Seq::empty()
    } else {
        let rest = spec_filter_sols(sols, upto - 1);
        if spec_keep(sols, upto - 1) {
            rest.push((sols[upto - 1].0, sols[upto - 1].1[0]))
        } else {
            rest
        }
    }
}

/// The values of an accepted-pair list.
pub open spec fn accepted_view(v: Seq<(Issue, Solution)>) -> Seq<(IssueModel, SolutionModel)> {
    v.map_values(|p: (Issue, Solution)| (p.0@, p.1@))
}

/// Disambiguation: keep only the issues whose candidate set has exactly
/// one member that shares no endpoint with any candidate proposed for a
/// different issue in the same pass.
pub fn filter_multiple_solutions(sols: &Vec<(Issue, Vec<Solution>)>) -> (r: Vec<
    (Issue, Solution),
>)
    ensures
        accepted_view(r@) == spec_filter_sols(pairs_view(sols@), sols@.len() as int),
{
    let ghost pv = pairs_view(sols@);
    let mut real_sols: Vec<(Issue, Solution)> = Vec::new();
    let n = sols.len();
    let mut i: usize = 0;
    proof {
        assert(accepted_view(real_sols@) =~~= spec_filter_sols(pv, 0));
    }
    while i < n
        invariant
            n == sols@.len(),
            0 <= i <= n,
            pv == pairs_view(sols@),
            pv.len() == n,
            accepted_view(real_sols@) == spec_filter_sols(pv, i as int),
        decreases n - i,
    {
        proof {
            assert(pv[i as int] == (sols@[i as int].0@, sols_view(sols@[i as int].1@)));
        }
        if sols[i].1.len() == 1 {
            let candidate = &sols[i].1[0];
            proof {
                assert(candidate@ == pv[i as int].1[0]);
            }
            let mut clash = false;
            let mut j: usize = 0;
            while j < n
                invariant_except_break
                    n == sols@.len(),
                    0 <= i < n,
                    0 <= j <= n,
                    !clash,
                    pv == pairs_view(sols@),
                    pv.len() == n,
                    candidate@ == pv[i as int].1[0],
                    pv[i as int].1.len() == 1,
                    forall|jj: int, q: int|
                        0 <= jj < j && jj != i && 0 <= q < (#[trigger] pv[jj].1).len()
                            ==> !spec_share_endpoint(#[trigger] pv[jj].1[q], pv[i as int].1[0]),
                ensures
                    n == sols@.len(),
                    pv == pairs_view(sols@),
                    pv.len() == n,
                    clash ==> !spec_keep(pv, i as int),
                    !clash ==> forall|jj: int, q: int|
                        0 <= jj < n && jj != i && 0 <= q < (#[trigger] pv[jj].1).len()
                            ==> !spec_share_endpoint(#[trigger] pv[jj].1[q], pv[i as int].1[0]),
                decreases n - j,
            {
                if j != i {
                    let m = sols[j].1.len();
                    proof {
                        assert(pv[j as int] == (sols@[j as int].0@, sols_view(
                            sols@[j as int].1@,
                        )));
                    }
                    let mut q: usize = 0;
                    while q < m
                        invariant_except_break
                            n == sols@.len(),
                            0 <= i < n,
                            0 <= j < n,
                            j != i,
                            m == sols@[j as int].1@.len(),
                            0 <= q <= m,
                            !clash,
                            pv == pairs_view(sols@),
                            pv.len() == n,
                            pv[j as int].1.len() == m,
                            candidate@ == pv[i as int].1[0],
                            pv[i as int].1.len() == 1,
                            forall|qq: int|
                                0 <= qq < q ==> !spec_share_endpoint(
                                    #[trigger] pv[j as int].1[qq],
                                    pv[i as int].1[0],
                                ),
                        ensures
                            pv == pairs_view(sols@),
                            clash ==> exists|qq: int|
                                0 <= qq < pv[j as int].1.len() && spec_share_endpoint(
                                    #[trigger] pv[j as int].1[qq],
                                    pv[i as int].1[0],
                                ),
                            !clash ==> forall|qq: int|
                                0 <= qq < pv[j as int].1.len() ==> !spec_share_endpoint(
                                    #[trigger] pv[j as int].1[qq],
                                    pv[i as int].1[0],
                                ),
                        decreases m - q,
                    {
                        proof {
                            assert(pv[j as int] == (sols@[j as int].0@, sols_view(
                                sols@[j as int].1@,
                            )));
                            assert(pv[j as int].1[q as int] == sols@[j as int].1@[q as int]@);
                        }
                        if sols[j].1[q].names_occur_in_both(candidate) {
                            clash = true;
                            proof {
                                assert(spec_share_endpoint(
                                    pv[j as int].1[q as int],
                                    pv[i as int].1[0],
                                ));
                            }
                            break;
                        }
                        proof {
                            assert(!spec_share_endpoint(
                                pv[j as int].1[q as int],
                                pv[i as int].1[0],
                            ));
                        }
                        q = q + 1;
                    }
                    if clash {
                        break;
                    }
                }
                j = j + 1;
            }
            if !clash {
                let ci = clone_issue(&sols[i].0);
                let cs = clone_solution(&sols[i].1[0]);
                proof {
                    assert(ci@ =~~= pv[i as int].0);
                    assert(cs@ == pv[i as int].1[0]);
                }
                let ghost rb = real_sols@;
                let ghost cig = ci;
                let ghost csg = cs;
                real_sols.push((ci, cs));
                proof {
                    assert(accepted_view(real_sols@) =~~= accepted_view(rb).push(
                        (cig@, csg@),
                    ));
                    assert(spec_keep(pv, i as int));
                    assert(accepted_view(real_sols@) =~~= spec_filter_sols(pv, i as int + 1));
                }
            } else {
                proof {
                    assert(!spec_keep(pv, i as int));
                    assert(accepted_view(real_sols@) =~~= spec_filter_sols(pv, i as int + 1));
                }
            }
        } else {
            proof {
                assert(!spec_keep(pv, i as int));
                assert(accepted_view(real_sols@) =~~= spec_filter_sols(pv, i as int + 1));
            }
        }
        i = i + 1;
    }
    real_sols
}

/// The differential value a proposed candidate is recorded as.
pub open spec fn spec_diff_of_m(ds: DiffSolModel) -> crate::types::DiffModel {
    crate::types::DiffModel {
        from: ds.from,
        to: ds.to,
        coeff: ds.coeff,
        d: ds.d,
        kind: Kind::Real,
        synthetic: true,
        justification: None,
    }
}

/// What applying the accepted pairs does to the relation set, over
/// values.
pub open spec fn spec_apply_m(
    diffs: Seq<crate::types::DiffModel>,
    mults: Seq<crate::types::MultModel>,
    sols: Seq<(IssueModel, SolutionModel)>,
) -> (Seq<crate::types::DiffModel>, Seq<crate::types::MultModel>)
    decreases sols.len(),
{
    if sols.len() == 0 {
        (diffs, mults)
    } else {
        let prev = spec_apply_m(diffs, mults, sols.drop_last());
        match sols.last().1 {
            SolutionModel::Diff(ds) => (
                crate::curtis::spec_insert_diff_model(prev.0, spec_diff_of_m(ds)),
                prev.1,
            ),
            SolutionModel::DoubleDiff(d1, d2) => (
                crate::curtis::spec_insert_diff_model(
                    crate::curtis::spec_insert_diff_model(prev.0, spec_diff_of_m(d1)),
                    spec_diff_of_m(d2),
                ),
                prev.1,
            ),
            SolutionModel::Tau(ts) => (
                prev.0,
                prev.1.push(
                    crate::types::MultModel { from: ts.from, to: ts.to, kind: Kind::Real },
                ),
            ),
        }
    }
}

/// Applying commutes with taking values.
pub proof fn lemma_apply_bridge(
    diffs: Seq<Differential>,
    mults: Seq<Multiplication>,
    sols: Seq<(Issue, Solution)>,
)
    ensures
        crate::types::diffs_view(spec_apply(diffs, mults, sols).0) == spec_apply_m(
            crate::types::diffs_view(diffs),
            crate::types::mults_view(mults),
            accepted_view(sols),
        ).0,
        crate::types::mults_view(spec_apply(diffs, mults, sols).1) == spec_apply_m(
            crate::types::diffs_view(diffs),
            crate::types::mults_view(mults),
            accepted_view(sols),
        ).1,
    decreases sols.len(),
{
    if sols.len() > 0 {
        lemma_apply_bridge(diffs, mults, sols.drop_last());
        let prev = spec_apply(diffs, mults, sols.drop_last());
        let av = accepted_view(sols);
        assert(accepted_view(sols.drop_last()) =~~= av.drop_last());
        assert(av.last() == (sols.last().0@, sols.last().1@));
        match sols.last().1 {
            Solution::Diff(ds) => {
                assert(spec_diff_of(ds)@ =~~= spec_diff_of_m(ds@));
                crate::processor::lemma_insert_diff_bridge(prev.0, spec_diff_of(ds));
            },
            Solution::DoubleDiff(d1, d2) => {
                assert(spec_diff_of(d1)@ =~~= spec_diff_of_m(d1@));
                assert(spec_diff_of(d2)@ =~~= spec_diff_of_m(d2@));
                crate::processor::lemma_insert_diff_bridge(prev.0, spec_diff_of(d1));
                crate::processor::lemma_insert_diff_bridge(
                    crate::types::spec_insert_diff(prev.0, spec_diff_of(d1)),
                    spec_diff_of(d2),
                );
            },
            Solution::Tau(ts) => {
                assert(crate::types::mults_view(prev.1.push(
                    Multiplication { from: ts.from, to: ts.to, kind: Kind::Real },
                )) =~~= crate::types::mults_view(prev.1).push(
                    crate::types::MultModel { from: ts.from@, to: ts.to@, kind: Kind::Real },
                ));
            },
        }
    }
}

/// The differential a proposed candidate is recorded as.
pub open spec fn spec_diff_of(ds: DiffSolution) -> Differential {
    Differential {
        from: ds.from,
        to: ds.to,
        coeff: ds.coeff,
        d: ds.d,
        kind: Kind::Real,
        synthetic: true,
        justification: None,
    }
}

/// What applying the accepted pairs does to the relation set.
pub open spec fn spec_apply(
    diffs: Seq<Differential>,
    mults: Seq<Multiplication>,
    sols: Seq<(Issue, Solution)>,
) -> (Seq<Differential>, Seq<Multiplication>)
    decreases sols.len(),
{
    if sols.len() == 0 {
        (diffs, mults)
    } else {
        let prev = spec_apply(diffs, mults, sols.drop_last());
        match sols.last().1 {
            Solution::Diff(ds) => (
                crate::types::spec_insert_diff(prev.0, spec_diff_of(ds)),
                prev.1,
            ),
            Solution::DoubleDiff(d1, d2) => (
                crate::types::spec_insert_diff(
                    crate::types::spec_insert_diff(prev.0, spec_diff_of(d1)),
                    spec_diff_of(d2),
                ),
                prev.1,
            ),
            Solution::Tau(ts) => (
                prev.0,
                prev.1.push(Multiplication { from: ts.from, to: ts.to, kind: Kind::Real }),
            ),
        }
    }
}

/// Insert the accepted candidates into the relation set: differentials as
/// new real differentials in page order, tau candidates as new real tau
/// multiplications.
pub fn apply_solutions(data: &mut SyntheticEHP, sols: &Vec<(Issue, Solution)>)
    ensures
        (final(data).differentials@, final(data).multiplications@) == spec_apply(
            old(data).differentials@,
            old(data).multiplications@,
            sols@,
        ),
        (
            crate::types::diffs_view(final(data).differentials@),
            crate::types::mults_view(final(data).multiplications@),
        ) == spec_apply_m(
            crate::types::diffs_view(old(data).differentials@),
            crate::types::mults_view(old(data).multiplications@),
            accepted_view(sols@),
        ),
        old(data).diffs_ordered() ==> final(data).diffs_ordered(),
        final(data).generators == old(data).generators,
        final(data).find_map == old(data).find_map,
{
    let n = sols.len();
    let mut i: usize = 0;
    while i < n
        invariant
            n == sols@.len(),
            0 <= i <= n,
            (data.differentials@, data.multiplications@) == spec_apply(
                old(data).differentials@,
                old(data).multiplications@,
                sols@.take(i as int),
            ),
            old(data).diffs_ordered() ==> crate::types::diffs_sorted(data.differentials@),
            data.generators == old(data).generators,
            data.find_map == old(data).find_map,
        decreases n - i,
    {
        let ghost prev_d = data.differentials@;
        match &sols[i].1 {
            Solution::Diff(ds) => {
                let dd = Differential {
                    from: ds.from.clone(),
                    to: ds.to.clone(),
                    coeff: ds.coeff,
                    d: ds.d,
                    kind: Kind::Real,
                    synthetic: true,
                    justification: None,
                };
                proof {
                    assert(dd == spec_diff_of(sols@[i as int].1->Diff_0));
                }
                data.insert_diff(dd);
                proof {
                    if old(data).diffs_ordered() {
                        crate::types::lemma_insert_diff_sorted(prev_d, dd);
                    }
                }
            },
            Solution::DoubleDiff(d1, d2) => {
                let dd1 = Differential {
                    from: d1.from.clone(),
                    to: d1.to.clone(),
                    coeff: d1.coeff,
                    d: d1.d,
                    kind: Kind::Real,
                    synthetic: true,
                    justification: None,
                };
                let dd2 = Differential {
                    from: d2.from.clone(),
                    to: d2.to.clone(),
                    coeff: d2.coeff,
                    d: d2.d,
                    kind: Kind::Real,
                    synthetic: true,
                    justification: None,
                };
                data.insert_diff(dd1);
                let ghost mid = data.differentials@;
                data.insert_diff(dd2);
                proof {
                    if old(data).diffs_ordered() {
                        crate::types::lemma_insert_diff_sorted(prev_d, dd1);
                        crate::types::lemma_insert_diff_sorted(mid, dd2);
                    }
                }
            },
            Solution::Tau(ts) => {
                let m = Multiplication {
                    from: ts.from.clone(),
                    to: ts.to.clone(),
                    kind: Kind::Real,
                };
                data.multiplications.push(m);
            },
        }
        proof {
            let taken = sols@.take(i + 1);
            assert(taken.drop_last() =~= sols@.take(i as int));
            assert(taken.last() == sols@[i as int]);
        }
        i = i + 1;
    }
    proof {
        assert(sols@.take(n as int) =~= sols@);
        lemma_apply_bridge(old(data).differentials@, old(data).multiplications@, sols@);
    }
}

/// Every accepted candidate inserts at least one relation.
pub proof fn lemma_apply_adds(
    diffs: Seq<Differential>,
    mults: Seq<Multiplication>,
    sols: Seq<(Issue, Solution)>,
)
    ensures
        spec_apply(diffs, mults, sols).0.len() + spec_apply(diffs, mults, sols).1.len()
            >= diffs.len() + mults.len() + sols.len(),
    decreases sols.len(),
{
    if sols.len() > 0 {
        lemma_apply_adds(diffs, mults, sols.drop_last());
        let prev = spec_apply(diffs, mults, sols.drop_last());
        match sols.last().1 {
            Solution::Diff(ds) => {
                crate::types::lemma_insert_diff_elements(prev.0, spec_diff_of(ds));
            },
            Solution::DoubleDiff(d1, d2) => {
                crate::types::lemma_insert_diff_elements(prev.0, spec_diff_of(d1));
                crate::types::lemma_insert_diff_elements(
                    crate::types::spec_insert_diff(prev.0, spec_diff_of(d1)),
                    spec_diff_of(d2),
                );
            },
            Solution::Tau(_) => {},
        }
    }
}

/// The issue list of one solver pass, over values.
pub open spec fn spec_pass_issues(
    data: SyntheticEHP,
    bot_trunc: i32,
    top_trunc: i32,
    stem: i32,
    ev: Seq<crate::reference::RefEntryModel>,
) -> Seq<IssueModel> {
    spec_issues(
        spec_issue_groups(data, bot_trunc, top_trunc, stem),
        ev,
        bot_trunc,
        top_trunc,
        stem,
    )
}

/// The accepted (issue, candidate) pairs of one solver pass, over values.
pub open spec fn spec_pass_accepted(
    data: SyntheticEHP,
    bot_trunc: i32,
    top_trunc: i32,
    stem: i32,
    ev: Seq<crate::reference::RefEntryModel>,
) -> Seq<(IssueModel, SolutionModel)> {
    let ism = spec_pass_issues(data, bot_trunc, top_trunc, stem, ev);
    let solm = spec_solutions(
        ism,
        ism.len() as int,
        spec_fs_sources(data, bot_trunc, top_trunc, stem),
        spec_fs_target(data, bot_trunc, top_trunc, stem),
    );
    spec_filter_sols(solm, solm.len() as int)
}

/// One pass of the solver over one stem and truncation window: find the
/// issues, propose candidates, disambiguate, apply.  `Ok(true)` exactly
/// when an unambiguous candidate existed, and then the relation set is
/// exactly the accepted candidates applied; `Ok(false)` exactly when the
/// window already matched; an error exactly when the window cannot be
/// matched or issues remain with no applicable candidate, the data
/// untouched either way.
pub fn fix_in_trunc_stem(
    data: &mut SyntheticEHP,
    bot_trunc: i32,
    top_trunc: i32,
    stem: i32,
    exp: &Vec<RefEntry>,
) -> (r: Result<bool, SolverFailure>)
    requires
        old(data).torsion_wf(),
        top_trunc < i32::MAX,
        stem < i32::MAX,
    ensures
        final(data).generators == old(data).generators,
        final(data).find_map == old(data).find_map,
        final(data).torsion_wf(),
        old(data).diffs_ordered() ==> final(data).diffs_ordered(),
        ({
            let ev = crate::reference::refs_view(exp@);
            let gs = spec_issue_groups(*old(data), bot_trunc, top_trunc, stem);
            let ism = spec_pass_issues(*old(data), bot_trunc, top_trunc, stem, ev);
            let under = exists|k: int| 0 <= k < ism.len() && issue_underfull(#[trigger] ism[k]);
            let filt = spec_pass_accepted(*old(data), bot_trunc, top_trunc, stem, ev);
            &&& (r == Result::<bool, SolverFailure>::Ok(false) <==> !spec_missing_bidegree(
                gs,
                ev,
                stem,
            ) && !under && ism.len() == 0)
            &&& (r == Result::<bool, SolverFailure>::Ok(true) <==> !spec_missing_bidegree(
                gs,
                ev,
                stem,
            ) && !under && filt.len() > 0)
            &&& (r == Result::<bool, SolverFailure>::Ok(true) ==> (
                crate::types::diffs_view(final(data).differentials@),
                crate::types::mults_view(final(data).multiplications@),
            ) == spec_apply_m(
                crate::types::diffs_view(old(data).differentials@),
                crate::types::mults_view(old(data).multiplications@),
                filt,
            ))
            &&& (r is Err <==> spec_missing_bidegree(gs, ev, stem) || under || (ism.len() > 0
                && filt.len() == 0))
        }),
        r == Result::<bool, SolverFailure>::Ok(true) ==> final(data).differentials@.len()
            + final(data).multiplications@.len() > old(data).differentials@.len() + old(
            data,
        ).multiplications@.len(),
        r == Result::<bool, SolverFailure>::Ok(false) ==> *final(data) == *old(data),
        r is Err ==> *final(data) == *old(data),
{
    let ghost ev = crate::reference::refs_view(exp@);
    let ghost gs = spec_issue_groups(*old(data), bot_trunc, top_trunc, stem);
    let ghost ism = spec_pass_issues(*old(data), bot_trunc, top_trunc, stem, ev);
    let issues = match find_issues(data, bot_trunc, top_trunc, stem, exp) {
        Ok(v) => v,
        Err(e) => {
            proof {
                assert(spec_missing_bidegree(gs, ev, stem));
            }
            return Err(e);
        },
    };
    proof {
        assert(issues_view(issues@) == ism);
        assert(issues@.len() == ism.len());
    }
    let no_issues = issues.len() == 0;
    let sols = match find_solutions(data, bot_trunc, top_trunc, stem, &issues) {
        Ok(v) => v,
        Err(e) => {
            proof {
                assert(exists|k: int|
                    0 <= k < ism.len() && issue_underfull(#[trigger] ism[k]));
            }
            return Err(e);
        },
    };
    let ghost solm = spec_solutions(
        ism,
        ism.len() as int,
        spec_fs_sources(*old(data), bot_trunc, top_trunc, stem),
        spec_fs_target(*old(data), bot_trunc, top_trunc, stem),
    );
    proof {
        assert(pairs_view(sols@) == solm);
        assert(sols@.len() == solm.len());
        assert(!(exists|k: int| 0 <= k < ism.len() && issue_underfull(#[trigger] ism[k])))
            by {
            if exists|k: int| 0 <= k < ism.len() && issue_underfull(#[trigger] ism[k]) {
                let k = choose|k: int|
                    0 <= k < ism.len() && issue_underfull(#[trigger] ism[k]);
                assert(0 <= k < issues_view(issues@).len() && issue_underfull(
                    issues_view(issues@)[k],
                ));
            }
        }
    }
    let filt_sols = filter_multiple_solutions(&sols);
    let ghost filtm = spec_pass_accepted(*old(data), bot_trunc, top_trunc, stem, ev);
    proof {
        assert(accepted_view(filt_sols@) == filtm);
        assert(filt_sols@.len() == filtm.len());
    }
    if filt_sols.len() == 0 {
        if no_issues {
            proof {
                assert(ism.len() == 0);
                assert(!spec_missing_bidegree(gs, ev, stem));
            }
            Ok(false)
        } else {
            proof {
                assert(ism.len() > 0 && filtm.len() == 0);
            }
            Err(SolverFailure::Unresolved { stem })
        }
    } else {
        apply_solutions(data, &filt_sols);
        proof {
            lemma_apply_adds(
                old(data).differentials@,
                old(data).multiplications@,
                filt_sols@,
            );
            assert(filtm.len() > 0);
            assert(!spec_missing_bidegree(gs, ev, stem));
            assert((
                crate::types::diffs_view(data.differentials@),
                crate::types::mults_view(data.multiplications@),
            ) == spec_apply_m(
                crate::types::diffs_view(old(data).differentials@),
                crate::types::mults_view(old(data).multiplications@),
                filtm,
            ));
        }
        Ok(true)
    }
}

/// Passes the fixed-point search will attempt per stem before giving the
/// stem up as unresolved.
pub const SOLVER_PASS_LIMIT: u32 = 64;

/// The values of a reference-table collection.
pub open spec fn tables_view(v: Seq<((i32, i32), Vec<RefEntry>)>) -> Seq<
    ((i32, i32), Seq<crate::reference::RefEntryModel>),
> {
    v.map_values(
        |p: ((i32, i32), Vec<RefEntry>)| (p.0, crate::reference::refs_view(p.1@)),
    )
}

/// Index of the first table for a window, or -1.
pub open spec fn tbl_index(
    tv: Seq<((i32, i32), Seq<crate::reference::RefEntryModel>)>,
    bot: i32,
    top: i32,
) -> int
    decreases tv.len(),
{
    if tv.len() == 0 {
        -1
    } else if tv[0].0 == (bot, top) {
        0
    } else {
        let r = tbl_index(tv.drop_first(), bot, top);
        if r < 0 {
            -1
        } else {
            r + 1
        }
    }
}

/// What the first-table index means position by position.
pub proof fn lemma_tbl_index(
    tv: Seq<((i32, i32), Seq<crate::reference::RefEntryModel>)>,
    bot: i32,
    top: i32,
)
    ensures
        tbl_index(tv, bot, top) == -1 ==> forall|k: int|
            0 <= k < tv.len() ==> (#[trigger] tv[k]).0 != (bot, top),
        tbl_index(tv, bot, top) >= 0 ==> {
            let r = tbl_index(tv, bot, top);
            &&& r < tv.len()
            &&& tv[r].0 == (bot, top)
            &&& forall|k: int| 0 <= k < r ==> (#[trigger] tv[k]).0 != (bot, top)
        },
    decreases tv.len(),
{
    if tv.len() > 0 && tv[0].0 != (bot, top) {
        let rest = tv.drop_first();
        lemma_tbl_index(rest, bot, top);
        let r = tbl_index(tv, bot, top);
        if r == -1 {
            assert forall|k: int| 0 <= k < tv.len() implies (#[trigger] tv[k]).0 != (
                bot,
                top,
            ) by {
                if k > 0 {
                    assert(rest[k - 1] == tv[k]);
                }
            }
        } else {
            assert(tv[r] == rest[r - 1]);
            assert forall|k: int| 0 <= k < r implies (#[trigger] tv[k]).0 != (bot, top) by {
                if k > 0 {
                    assert(rest[k - 1] == tv[k]);
                }
            }
        }
    }
}

fn find_table<'a>(tables: &'a Vec<((i32, i32), Vec<RefEntry>)>, bot: i32, top: i32) -> (r: Option<
    &'a Vec<RefEntry>,
>)
    ensures
        ({
            let tv = tables_view(tables@);
            match r {
                Some(t) => tbl_index(tv, bot, top) >= 0 && crate::reference::refs_view(t@)
                    == tv[tbl_index(tv, bot, top)].1,
                None => tbl_index(tv, bot, top) == -1,
            }
        }),
{
    let ghost tv = tables_view(tables@);
    let n = tables.len();
    let mut i: usize = 0;
    while i < n
        invariant
            n == tables@.len(),
            0 <= i <= n,
            tv == tables_view(tables@),
            forall|k: int| 0 <= k < i ==> (#[trigger] tv[k]).0 != (bot, top),
        decreases n - i,
    {
        proof {
            assert(tv[i as int] == (tables@[i as int].0, crate::reference::refs_view(
                tables@[i as int].1@,
            )));
        }
        if tables[i].0.0 == bot && tables[i].0.1 == top {
            proof {
                lemma_tbl_index(tv, bot, top);
                let r = tbl_index(tv, bot, top);
                assert(tv[i as int].0 == (bot, top));
                if r > i as int {
                    assert(!(tv[i as int].0 != (bot, top)));
                }
                if r < i as int && r >= 0 {
                } else {
                }
                if r == -1 {
                    assert(tv[i as int].0 != (bot, top));
                }
                assert(r >= 0);
                if r < i as int {
                    assert(tv[r].0 == (bot, top));
                    assert(tv[r].0 != (bot, top));
                }
                assert(r == i as int);
            }
            return Some(&tables[i].1);
        }
        i = i + 1;
    }
    proof {
        lemma_tbl_index(tv, bot, top);
        if tbl_index(tv, bot, top) >= 0 {
            assert(tv[tbl_index(tv, bot, top)].0 == (bot, top));
        }
    }
    None
}

/// The failure one checked window leaves for a stem: no table supplied,
/// an expected bidegree with no surviving group, or remaining issues.
pub open spec fn spec_window_failure(
    data: SyntheticEHP,
    tv: Seq<((i32, i32), Seq<crate::reference::RefEntryModel>)>,
    stem: i32,
    bot: i32,
    top: i32,
) -> Option<SolverFailure> {
    let ti = tbl_index(tv, bot, top);
    if ti < 0 {
        Some(SolverFailure::MissingTable { bot_trunc: bot, top_trunc: top })
    } else {
        let ev = tv[ti].1;
        let gs = spec_issue_groups(data, bot, top, stem);
        let fm = spec_first_missing(gs, ev, stem);
        if fm >= 0 {
            Some(SolverFailure::MissingBidegree { stem, af: ev[fm].af })
        } else if spec_issues(gs, ev, bot, top, stem).len() > 0 {
            Some(SolverFailure::Unresolved { stem })
        } else {
            None
        }
    }
}

/// The failure a stem ends with, if any: its bottom-truncated window when
/// that window applies and fails, else the base window.
pub open spec fn spec_stem_failure(
    data: SyntheticEHP,
    tv: Seq<((i32, i32), Seq<crate::reference::RefEntryModel>)>,
    stem: i32,
) -> Option<SolverFailure> {
    let w1 = if (stem + 1) % 2 == 1 {
        spec_window_failure(data, tv, stem, (stem + 1) as i32, 256)
    } else {
        None
    };
    if w1 is Some {
        w1
    } else {
        spec_window_failure(data, tv, stem, 1, 2)
    }
}

/// The failed stems up to (excluding) `upto`, each with its failure.
pub open spec fn spec_failures(
    data: SyntheticEHP,
    tv: Seq<((i32, i32), Seq<crate::reference::RefEntryModel>)>,
    upto: int,
) -> Seq<(i32, SolverFailure)>
    decreases upto,
{
    if upto <= 1 {
        Seq::empty()
    } else {
        let rest = spec_failures(data, tv, upto - 1);
        match spec_stem_failure(data, tv, (upto - 1) as i32) {
            Some(f) => rest.push(((upto - 1) as i32, f)),
            None => rest,
        }
    }
}

/// Check one window of one stem against the final data.
fn window_failure(
    data: &SyntheticEHP,
    tables: &Vec<((i32, i32), Vec<RefEntry>)>,
    stem: i32,
    bot: i32,
    top: i32,
) -> (r: Option<SolverFailure>)
    requires
        data.torsion_wf(),
        top < i32::MAX,
        1 <= stem < MAX_STEM,
    ensures
        r == spec_window_failure(*data, tables_view(tables@), stem, bot, top),
{
    let ghost tv = tables_view(tables@);
    match find_table(tables, bot, top) {
        Some(t) => {
            match find_issues(data, bot, top, stem, t) {
                Ok(issues) => {
                    proof {
                        let ti = tbl_index(tv, bot, top);
                        let ev = tv[ti].1;
                        let gs = spec_issue_groups(*data, bot, top, stem);
                        lemma_first_missing(gs, ev, stem);
                        assert(issues_view(issues@).len() == issues@.len());
                    }
                    if issues.len() > 0 {
                        Some(SolverFailure::Unresolved { stem })
                    } else {
                        None
                    }
                },
                Err(e) => {
                    proof {
                        let ti = tbl_index(tv, bot, top);
                        let ev = tv[ti].1;
                        let gs = spec_issue_groups(*data, bot, top, stem);
                        lemma_first_missing(gs, ev, stem);
                    }
                    Some(e)
                },
            }
        },
        None => Some(SolverFailure::MissingTable { bot_trunc: bot, top_trunc: top }),
    }
}

/// Drive the solver to a fixed point on every stem in turn, then hold
/// the final data against every stem's windows once more: the result
/// lists exactly the stems whose windows still fail, each with its
/// failure.  A failure on one stem does not stop the others: every stem
/// is attempted and every stem is checked.
pub fn fix_correctness_by_stem(
    data: &mut SyntheticEHP,
    tables: &Vec<((i32, i32), Vec<RefEntry>)>,
) -> (r: Vec<(i32, SolverFailure)>)
    requires
        old(data).torsion_wf(),
    ensures
        final(data).generators == old(data).generators,
        final(data).find_map == old(data).find_map,
        final(data).torsion_wf(),
        old(data).diffs_ordered() ==> final(data).diffs_ordered(),
        final(data).differentials@.len() + final(data).multiplications@.len() >= old(
            data,
        ).differentials@.len() + old(data).multiplications@.len(),
        r@ == spec_failures(*final(data), tables_view(tables@), MAX_STEM as int),
{
    // fix every stem to its fixed point
    let mut stem: i32 = 1;
    while stem <= MAX_STEM - 1
        invariant
            1 <= stem <= MAX_STEM,
            data.torsion_wf(),
            data.generators == old(data).generators,
            data.find_map == old(data).find_map,
            old(data).diffs_ordered() ==> data.diffs_ordered(),
            data.differentials@.len() + data.multiplications@.len() >= old(
                data,
            ).differentials@.len() + old(data).multiplications@.len(),
        decreases MAX_STEM - stem,
    {
        let mut passes: u32 = 0;
        let mut applied_change = true;
        while applied_change && passes < SOLVER_PASS_LIMIT
            invariant
                1 <= stem <= MAX_STEM - 1,
                data.torsion_wf(),
                data.generators == old(data).generators,
                data.find_map == old(data).find_map,
                old(data).diffs_ordered() ==> data.diffs_ordered(),
                data.differentials@.len() + data.multiplications@.len() >= old(
                    data,
                ).differentials@.len() + old(data).multiplications@.len(),
                passes <= SOLVER_PASS_LIMIT,
            decreases SOLVER_PASS_LIMIT - passes,
        {
            applied_change = false;

            // the window battery of a pass: the bottom-truncated window
            // that meets this stem, and the doubly-truncated base window
            let bot = stem + 1;
            if bot % 2 == 1 {
                match find_table(tables, bot, 256) {
                    Some(t) => {
                        match fix_in_trunc_stem(data, bot, 256, stem, t) {
                            Ok(changed) => {
                                if changed {
                                    applied_change = true;
                                }
                            },
                            Err(_) => {},
                        }
                    },
                    None => {},
                }
            }
            match find_table(tables, 1, 2) {
                Some(t) => {
                    match fix_in_trunc_stem(data, 1, 2, stem, t) {
                        Ok(changed) => {
                            if changed {
                                applied_change = true;
                            }
                        },
                        Err(_) => {},
                    }
                },
                None => {},
            }
            passes = passes + 1;
        }
        stem = stem + 1;
    }

    // hold the final data against every stem once more and report what
    // still fails
    let ghost tv = tables_view(tables@);
    let mut failures: Vec<(i32, SolverFailure)> = Vec::new();
    let mut check: i32 = 1;
    proof {
        assert(failures@ =~= spec_failures(*data, tv, 1));
    }
    while check <= MAX_STEM - 1
        invariant
            1 <= check <= MAX_STEM,
            data.torsion_wf(),
            tv == tables_view(tables@),
            failures@ == spec_failures(*data, tv, check as int),
        decreases MAX_STEM - check,
    {
        let bot = check + 1;
        let w1 = if bot % 2 == 1 {
            window_failure(data, tables, check, bot, 256)
        } else {
            None
        };
        let fail = match w1 {
            Some(f) => Some(f),
            None => window_failure(data, tables, check, 1, 2),
        };
        match fail {
            Some(f) => {
                failures.push((check, f));
                proof {
                    assert(failures@ =~= spec_failures(*data, tv, check as int + 1));
                }
            },
            None => {
                proof {
                    assert(failures@ =~= spec_failures(*data, tv, check as int + 1));
                }
            },
        }
        check = check + 1;
    }
    failures
}

} // verus!
