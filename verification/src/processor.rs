use vstd::prelude::*;

use crate::types::{
    Category, DiffModel, Differential, Generator, Kind, Multiplication, SyntheticEHP, Torsion,
};

verus! {

/// Stems above this bound carry work-in-progress data; consistency
/// diagnostics are only raised at or below it.
pub const MAX_VERIFY_STEM: i32 = 24;

/// One recorded state of a generator: the page the state was written on,
/// and the torsion and filtration it held from then on.
#[derive(Clone, Copy, Debug, PartialEq, Eq, Structural)]
pub struct Snapshot {
    pub page: i32,
    pub torsion: Torsion,
    pub filtration: i32,
}

/// One generator's chronological history inside a replay table,
/// most-recent snapshot first.  The grading of the generator is cached so
/// that reductions and reports need no further store lookups.
#[derive(Clone, Debug)]
pub struct PageRow {
    pub name: String,
    pub x: i32,
    pub y: i32,
    pub hist: Vec<Snapshot>,
}

/// The mathematical value of a `PageRow`.
#[verifier::ext_equal]
pub struct RowModel {
    pub name: Seq<char>,
    pub x: i32,
    pub y: i32,
    pub hist: Seq<Snapshot>,
}

impl View for PageRow {
    type V = RowModel;

    open spec fn view(&self) -> RowModel {
        RowModel { name: self.name@, x: self.x, y: self.y, hist: self.hist@ }
    }
}

/// The working table of a replay: one row per seeded generator.
#[derive(Clone, Debug)]
pub struct PageSS {
    pub generators: Vec<PageRow>,
}

impl View for PageSS {
    type V = Seq<RowModel>;

    open spec fn view(&self) -> Seq<RowModel> {
        self.generators@.map_values(|r: PageRow| r@)
    }
}

/// The collapsed final-page state of one generator.
#[derive(Clone, Debug)]
pub struct FinalRow {
    pub name: String,
    pub x: i32,
    pub y: i32,
    pub torsion: Torsion,
    pub filtration: i32,
}

/// The mathematical value of a `FinalRow`.
#[verifier::ext_equal]
pub struct FinalRowModel {
    pub name: Seq<char>,
    pub x: i32,
    pub y: i32,
    pub torsion: Torsion,
    pub filtration: i32,
}

impl View for FinalRow {
    type V = FinalRowModel;

    open spec fn view(&self) -> FinalRowModel {
        FinalRowModel {
            name: self.name@,
            x: self.x,
            y: self.y,
            torsion: self.torsion,
            filtration: self.filtration,
        }
    }
}

/// Index of the first row that carries `name`, or -1 when none does.
pub open spec fn row_index(rows: Seq<RowModel>, name: Seq<char>) -> int
    decreases rows.len(),
{
    if rows.len() == 0 {
        -1
    } else if rows[0].name == name {
        0
    } else {
        let r = row_index(rows.drop_first(), name);
        if r < 0 {
            -1
        } else {
            r + 1
        }
    }
}

/// Whether the table holds a row for `name`.
pub open spec fn spec_contains(rows: Seq<RowModel>, name: Seq<char>) -> bool {
    row_index(rows, name) >= 0
}

/// What the row index means position by position.
pub proof fn lemma_row_index(rows: Seq<RowModel>, name: Seq<char>)
    ensures
        row_index(rows, name) == -1 ==> forall|k: int|
            0 <= k < rows.len() ==> (#[trigger] rows[k]).name != name,
        row_index(rows, name) >= 0 ==> {
            let r = row_index(rows, name);
            &&& r < rows.len()
            &&& rows[r].name == name
            &&& forall|k: int| 0 <= k < r ==> (#[trigger] rows[k]).name != name
        },
    decreases rows.len(),
{
    if rows.len() > 0 && rows[0].name != name {
        let rest = rows.drop_first();
        lemma_row_index(rest, name);
        let r = row_index(rows, name);
        if r == -1 {
            assert forall|k: int| 0 <= k < rows.len() implies (#[trigger] rows[k]).name != name by {
                if k > 0 {
                    assert(rest[k - 1] == rows[k]);
                }
            }
        } else {
            assert(rows[r] == rest[r - 1]);
            assert forall|k: int| 0 <= k < r implies (#[trigger] rows[k]).name != name by {
                if k > 0 {
                    assert(rest[k - 1] == rows[k]);
                }
            }
        }
    }
}

/// Every row's history is nonempty and every recorded torsion is
/// well-formed.
pub open spec fn rows_wf(rows: Seq<RowModel>) -> bool {
    forall|i: int|
        0 <= i < rows.len() ==> (#[trigger] rows[i]).hist.len() > 0 && (forall|j: int|
            0 <= j < rows[i].hist.len() ==> (#[trigger] rows[i].hist[j]).torsion.wf())
}

/// What `get_recent` reads for a held name: the filtration the generator
/// started with, and its most recent torsion and filtration.
pub open spec fn spec_recent(rows: Seq<RowModel>, name: Seq<char>) -> (i32, Torsion, i32) {
    let row = rows[row_index(rows, name)];
    (row.hist.last().filtration, row.hist[0].torsion, row.hist[0].filtration)
}

/// The grading of the row that carries `name`.
pub open spec fn spec_row_x(rows: Seq<RowModel>, name: Seq<char>) -> i32 {
    rows[row_index(rows, name)].x
}

/// The table after a snapshot is pushed in front of the history of the
/// first row that carries `name`.
pub open spec fn spec_push(rows: Seq<RowModel>, name: Seq<char>, snap: Snapshot) -> Seq<RowModel> {
    let i = row_index(rows, name);
    rows.update(i, RowModel { name: rows[i].name, x: rows[i].x, y: rows[i].y, hist: seq![snap] + rows[i].hist })
}

/// Whether a generator falls inside the truncation window `[bot, top)`,
/// optionally narrowed to stems within one of a target stem.
pub open spec fn in_window(g: Generator, bot: i32, top: i32, limit_x: Option<i32>) -> bool {
    &&& bot <= g.y < top
    &&& match limit_x {
        Some(lx) => lx - 1 <= g.x <= lx + 1,
        None => true,
    }
}

/// The seed row of one generator under a category, if the category admits
/// the generator at all.
pub open spec fn seed_row(g: Generator, category: Category, bot: i32, top: i32, limit_x: Option<i32>) -> Option<RowModel> {
    if !in_window(g, bot, top, limit_x) {
        None
    } else {
        match category {
            Category::Algebraic => Some(
                RowModel {
                    name: g.name@,
                    x: g.x,
                    y: g.y,
                    hist: seq![Snapshot { page: 0, torsion: Torsion::Free, filtration: g.adams_filtration }],
                },
            ),
            Category::Classical => if g.torsion == Torsion::Free {
                Some(
                    RowModel {
                        name: g.name@,
                        x: g.x,
                        y: g.y,
                        hist: seq![Snapshot { page: 0, torsion: Torsion::Free, filtration: g.adams_filtration }],
                    },
                )
            } else {
                None
            },
            Category::Synthetic => Some(
                RowModel {
                    name: g.name@,
                    x: g.x,
                    y: g.y,
                    hist: seq![Snapshot { page: 0, torsion: g.torsion, filtration: g.adams_filtration }],
                },
            ),
        }
    }
}

/// The table that `fill` seeds: one row per admitted in-window generator,
/// in generator-list order.
pub open spec fn seed_rows(gens: Seq<Generator>, category: Category, bot: i32, top: i32, limit_x: Option<i32>) -> Seq<RowModel>
    decreases gens.len(),
{
    if gens.len() == 0 {
        Seq::empty()
    } else {
        let rest = seed_rows(gens.drop_last(), category, bot, top, limit_x);
        match seed_row(gens.last(), category, bot, top, limit_x) {
            Some(r) => rest.push(r),
            None => rest,
        }
    }
}

impl PageSS {
    /// Seed a replay table for a category over a truncation window.
    pub fn fill(
        data: &SyntheticEHP,
        category: Category,
        bot_trunc: i32,
        top_trunc: i32,
        limit_x: Option<i32>,
    ) -> (pages: PageSS)
        requires
            data.torsion_wf(),
        ensures
            pages@ == seed_rows(data.generators@, category, bot_trunc, top_trunc, limit_x),
            rows_wf(pages@),
    {
        let mut rows: Vec<PageRow> = Vec::new();
        let n = data.generators.len();
        for i in 0..n
            invariant
                n == data.generators@.len(),
                data.torsion_wf(),
                rows@.map_values(|r: PageRow| r@) == seed_rows(
                    data.generators@.take(i as int),
                    category,
                    bot_trunc,
                    top_trunc,
                    limit_x,
                ),
                rows_wf(rows@.map_values(|r: PageRow| r@)),
        {
            let g = &data.generators[i];
            let inside = bot_trunc <= g.y && g.y < top_trunc && (match limit_x {
                Some(lx) => lx as i64 - 1 <= g.x as i64 && g.x as i64 <= lx as i64 + 1,
                None => true,
            });
            let ghost prev = rows@.map_values(|r: PageRow| r@);
            if inside {
                match category {
                    Category::Algebraic => {
                        let mut hist: Vec<Snapshot> = Vec::new();
                        hist.push(Snapshot { page: 0, torsion: Torsion::Free, filtration: g.adams_filtration });
                        rows.push(PageRow { name: g.name.clone(), x: g.x, y: g.y, hist });
                    },
                    Category::Classical => {
                        if g.torsion.is_free() {
                            let mut hist: Vec<Snapshot> = Vec::new();
                            hist.push(Snapshot { page: 0, torsion: Torsion::Free, filtration: g.adams_filtration });
                            rows.push(PageRow { name: g.name.clone(), x: g.x, y: g.y, hist });
                        }
                    },
                    Category::Synthetic => {
                        let mut hist: Vec<Snapshot> = Vec::new();
                        hist.push(Snapshot { page: 0, torsion: g.torsion, filtration: g.adams_filtration });
                        rows.push(PageRow { name: g.name.clone(), x: g.x, y: g.y, hist });
                    },
                }
            }
            proof {
                let taken = data.generators@.take(i + 1);
                assert(taken.drop_last() =~= data.generators@.take(i as int));
                assert(taken.last() == data.generators@[i as int]);
                assert(rows@.map_values(|r: PageRow| r@) =~= seed_rows(
                    taken,
                    category,
                    bot_trunc,
                    top_trunc,
                    limit_x,
                ));
            }
        }
        proof {
            assert(data.generators@.take(n as int) =~= data.generators@);
        }
        PageSS { generators: rows }
    }

    /// Whether the table holds a row for `el`.
    pub fn contains(&self, el: &String) -> (r: bool)
        ensures
            r == spec_contains(self@, el@),
    {
        let n = self.generators.len();
        let mut i: usize = 0;
        while i < n
            invariant
                n == self.generators@.len(),
                0 <= i <= n,
                forall|k: int| 0 <= k < i ==> (#[trigger] self@[k]).name != el@,
            decreases n - i,
        {
            if self.generators[i].name == *el {
                proof {
                    assert(self@[i as int] == self.generators@[i as int]@);
                    lemma_row_index(self@, el@);
                }
                return true;
            }
            proof {
                assert(self@[i as int] == self.generators@[i as int]@);
            }
            i = i + 1;
        }
        proof {
            lemma_row_index(self@, el@);
        }
        false
    }

    /// Position of the row that carries a held name.
    fn find_row(&self, el: &String) -> (r: usize)
        requires
            spec_contains(self@, el@),
        ensures
            r == row_index(self@, el@),
            r < self.generators@.len(),
    {
        proof {
            lemma_row_index(self@, el@);
        }
        let n = self.generators.len();
        let mut i: usize = 0;
        while i < n
            invariant_except_break
                spec_contains(self@, el@),
                n == self.generators@.len(),
                0 <= i <= n,
                i <= row_index(self@, el@) < n,
            ensures
                0 <= i < n,
                i == row_index(self@, el@),
            decreases n - i,
        {
            proof {
                lemma_row_index(self@, el@);
                assert(self@[i as int] == self.generators@[i as int]@);
            }
            if self.generators[i].name == *el {
                break;
            }
            i = i + 1;
        }
        i
    }

    /// Read `(filtration at seeding, most recent torsion, most recent
    /// filtration)` for a held name.
    pub fn get_recent(&self, el: &String) -> (r: (i32, Torsion, i32))
        requires
            spec_contains(self@, el@),
            rows_wf(self@),
        ensures
            r == spec_recent(self@, el@),
    {
        let i = self.find_row(el);
        proof {
            assert(self@[i as int] == self.generators@[i as int]@);
            assert(self@[i as int].hist.len() > 0);
        }
        let row = &self.generators[i];
        let first = &row.hist[0];
        let last = &row.hist[row.hist.len() - 1];
        (last.filtration, first.torsion, first.filtration)
    }

    /// Push a new snapshot in front of the history of a held name.
    pub fn insert(&mut self, el: &String, page: i32, torsion: Torsion, filtration: i32)
        requires
            spec_contains(old(self)@, el@),
            rows_wf(old(self)@),
            torsion.wf(),
        ensures
            final(self)@ == spec_push(old(self)@, el@, Snapshot { page, torsion, filtration }),
            rows_wf(final(self)@),
    {
        let i = self.find_row(el);
        let ghost prev = self@;
        proof {
            assert(prev[i as int] == self.generators@[i as int]@);
        }
        self.generators[i].hist.insert(0, Snapshot { page, torsion, filtration });
        proof {
            assert(seq![Snapshot { page, torsion, filtration }] + prev[i as int].hist =~= old(
                self,
            )@[i as int].hist.insert(0, Snapshot { page, torsion, filtration }));
            assert(final(self)@ =~= spec_push(prev, el@, Snapshot { page, torsion, filtration }));
        }
    }
}


/// A soft consistency report raised during a replay.  Replay never stops on
/// one of these; they are accumulated and handed back beside the table.
#[derive(Clone, Debug, PartialEq, Eq)]
pub enum Diagnostic {
    FiltrationMismatch { from: String, to: String, from_filt: i32, to_filt: i32, coeff: i64 },
    TorsionToFree { from: String, to: String },
    LowerToHigher { from: String, to: String, from_torsion: i32, to_torsion: i32, coeff: i64 },
    NegativeTorsion { from: String, to: String, value: i64 },
    ValueOutOfRange { from: String, to: String },
    TauFiltrationMismatch { from: String, to: String, from_torsion: i32, from_af: i32, to_af: i32 },
    TauSourceFree { from: String, to: String },
}

/// The mathematical value of a `Diagnostic`.
#[verifier::ext_equal]
pub enum DiagModel {
    FiltrationMismatch { from: Seq<char>, to: Seq<char>, from_filt: int, to_filt: int, coeff: int },
    TorsionToFree { from: Seq<char>, to: Seq<char> },
    LowerToHigher { from: Seq<char>, to: Seq<char>, from_torsion: int, to_torsion: int, coeff: int },
    NegativeTorsion { from: Seq<char>, to: Seq<char>, value: int },
    ValueOutOfRange { from: Seq<char>, to: Seq<char> },
    TauFiltrationMismatch { from: Seq<char>, to: Seq<char>, from_torsion: int, from_af: int, to_af: int },
    TauSourceFree { from: Seq<char>, to: Seq<char> },
}

impl View for Diagnostic {
    type V = DiagModel;

    open spec fn view(&self) -> DiagModel {
        match self {
            Diagnostic::FiltrationMismatch { from, to, from_filt, to_filt, coeff } => (
                DiagModel::FiltrationMismatch {
                    from: from@,
                    to: to@,
                    from_filt: *from_filt as int,
                    to_filt: *to_filt as int,
                    coeff: *coeff as int,
                }
            ),
            Diagnostic::TorsionToFree { from, to } => (
                DiagModel::TorsionToFree { from: from@, to: to@ }
            ),
            Diagnostic::LowerToHigher { from, to, from_torsion, to_torsion, coeff } => (
                DiagModel::LowerToHigher {
                    from: from@,
                    to: to@,
                    from_torsion: *from_torsion as int,
                    to_torsion: *to_torsion as int,
                    coeff: *coeff as int,
                }
            ),
            Diagnostic::NegativeTorsion { from, to, value } => (
                DiagModel::NegativeTorsion { from: from@, to: to@, value: *value as int }
            ),
            Diagnostic::ValueOutOfRange { from, to } => (
                DiagModel::ValueOutOfRange { from: from@, to: to@ }
            ),
            Diagnostic::TauFiltrationMismatch { from, to, from_torsion, from_af, to_af } => (
                DiagModel::TauFiltrationMismatch {
                    from: from@,
                    to: to@,
                    from_torsion: *from_torsion as int,
                    from_af: *from_af as int,
                    to_af: *to_af as int,
                }
            ),
            Diagnostic::TauSourceFree { from, to } => (
                DiagModel::TauSourceFree { from: from@, to: to@ }
            ),
        }
    }
}

/// The sequence of report values that a diagnostic list stands for.
pub open spec fn diags_view(v: Seq<Diagnostic>) -> Seq<DiagModel> {
    v.map_values(|d: Diagnostic| d@)
}

/// Whether an intermediate value can be recorded in a snapshot.
pub open spec fn fits_i32(v: int) -> bool {
    i32::MIN <= v <= i32::MAX
}

/// One synthetic-category differential step over the table: the effective
/// coefficient is the recorded one corrected by how far the target's
/// filtration has already drifted; the relation is inert when either
/// endpoint is already killed; otherwise the source dies (torsion-free
/// target) or is revised (torsion-bearing target) and the target becomes
/// torsion-bearing with the effective coefficient.
pub open spec fn spec_step_synth(rows: Seq<RowModel>, diff: Differential) -> (Seq<RowModel>, Seq<DiagModel>) {
    let from = diff.from@;
    let to = diff.to@;
    let rec_to = spec_recent(rows, to);
    let rec_from = spec_recent(rows, from);
    let to_t = rec_to.1;
    let to_f = rec_to.2;
    let from_t = rec_from.1;
    let from_f = rec_from.2;
    let eff = diff.coeff - (rec_to.0 - to_f);
    let to_x = spec_row_x(rows, to);
    if to_t == Torsion::Zero || from_t == Torsion::Zero {
        (rows, Seq::empty())
    } else {
        let d1: Seq<DiagModel> = if to_f != from_f + 1 + eff && to_x <= MAX_VERIFY_STEM {
            seq![DiagModel::FiltrationMismatch { from, to, from_filt: from_f as int, to_filt: to_f as int, coeff: eff }]
        } else {
            Seq::empty()
        };
        match to_t {
            Torsion::Free => {
                let d2: Seq<DiagModel> = if from_t is Val && to_x <= MAX_VERIFY_STEM {
                    seq![DiagModel::TorsionToFree { from, to }]
                } else {
                    Seq::empty()
                };
                if fits_i32(eff) {
                    let r1 = spec_push(rows, from, Snapshot { page: diff.d, torsion: Torsion::Zero, filtration: from_f });
                    let r2 = spec_push(r1, to, Snapshot { page: diff.d, torsion: Torsion::spec_of_value(eff as i32), filtration: to_f });
                    (r2, d1 + d2)
                } else {
                    (rows, d1 + d2 + seq![DiagModel::ValueOutOfRange { from, to }])
                }
            },
            Torsion::Val(tv) => {
                let new_from_f = from_f - tv + eff;
                match from_t {
                    Torsion::Val(fv) => {
                        let d2: Seq<DiagModel> = if fv >= 0 && fv + eff < tv && to_x <= MAX_VERIFY_STEM {
                            seq![DiagModel::LowerToHigher { from, to, from_torsion: fv as int, to_torsion: tv as int, coeff: eff }]
                        } else {
                            Seq::empty()
                        };
                        let new_fv = fv - tv + eff;
                        let d3: Seq<DiagModel> = if new_fv < 0 && to_x <= MAX_VERIFY_STEM {
                            seq![DiagModel::NegativeTorsion { from, to, value: new_fv }]
                        } else {
                            Seq::empty()
                        };
                        if fits_i32(eff) && fits_i32(new_from_f) && fits_i32(new_fv) {
                            let r1 = spec_push(rows, from, Snapshot { page: diff.d, torsion: Torsion::spec_of_value(new_fv as i32), filtration: new_from_f as i32 });
                            let r2 = spec_push(r1, to, Snapshot { page: diff.d, torsion: Torsion::spec_of_value(eff as i32), filtration: to_f });
                            (r2, d1 + d2 + d3)
                        } else {
                            (rows, d1 + d2 + d3 + seq![DiagModel::ValueOutOfRange { from, to }])
                        }
                    },
                    Torsion::Free => {
                        if fits_i32(eff) && fits_i32(new_from_f) {
                            let r1 = spec_push(rows, from, Snapshot { page: diff.d, torsion: Torsion::Free, filtration: new_from_f as i32 });
                            let r2 = spec_push(r1, to, Snapshot { page: diff.d, torsion: Torsion::spec_of_value(eff as i32), filtration: to_f });
                            (r2, d1)
                        } else {
                            (rows, d1 + seq![DiagModel::ValueOutOfRange { from, to }])
                        }
                    },
                    Torsion::Zero => (rows, Seq::empty()),
                }
            },
            Torsion::Zero => (rows, Seq::empty()),
        }
    }
}

/// One differential step of a replay at `page`.  Relations with an absent
/// endpoint, placeholder relations and relations of a later page are
/// skipped; the algebraic and classical categories use the simplified
/// kill-only variants.
pub open spec fn spec_step_diff(rows: Seq<RowModel>, diff: Differential, category: Category, page: i32) -> (Seq<RowModel>, Seq<DiagModel>) {
    if !(spec_contains(rows, diff.from@) && spec_contains(rows, diff.to@)) {
        (rows, Seq::empty())
    } else if !(diff.d < page && diff.kind == Kind::Real) {
        (rows, Seq::empty())
    } else {
        match category {
            Category::Synthetic => spec_step_synth(rows, diff),
            Category::Algebraic => {
                if diff.coeff == 0 && !diff.synthetic {
                    let from_f = spec_recent(rows, diff.from@).2;
                    let to_f = spec_recent(rows, diff.to@).2;
                    let r1 = spec_push(rows, diff.from@, Snapshot { page: diff.d, torsion: Torsion::Zero, filtration: from_f });
                    let r2 = spec_push(r1, diff.to@, Snapshot { page: diff.d, torsion: Torsion::Zero, filtration: to_f });
                    (r2, Seq::empty())
                } else {
                    (rows, Seq::empty())
                }
            },
            Category::Classical => {
                let to_t = spec_recent(rows, diff.to@).1;
                let to_f = spec_recent(rows, diff.to@).2;
                let from_f = spec_recent(rows, diff.from@).2;
                if to_t != Torsion::Zero {
                    let r1 = spec_push(rows, diff.from@, Snapshot { page: diff.d, torsion: Torsion::Zero, filtration: from_f });
                    let r2 = spec_push(r1, diff.to@, Snapshot { page: diff.d, torsion: Torsion::Zero, filtration: to_f });
                    (r2, Seq::empty())
                } else {
                    (rows, Seq::empty())
                }
            },
        }
    }
}

/// The table and reports after the whole differential list is replayed in
/// order.
pub open spec fn spec_replay_diffs(rows: Seq<RowModel>, diffs: Seq<Differential>, category: Category, page: i32) -> (Seq<RowModel>, Seq<DiagModel>)
    decreases diffs.len(),
{
    if diffs.len() == 0 {
        (rows, Seq::empty())
    } else {
        let prev = spec_replay_diffs(rows, diffs.drop_last(), category, page);
        let step = spec_step_diff(prev.0, diffs.last(), category, page);
        (step.0, prev.1 + step.1)
    }
}

/// One tau-multiplication step of the final pass: inert when either
/// endpoint is killed; the source must carry known torsion; the target is
/// killed at its filtration and the source accumulates the target's
/// torsion.
pub open spec fn spec_step_tau(rows: Seq<RowModel>, tm: Multiplication, page: i32) -> (Seq<RowModel>, Seq<DiagModel>) {
    let from = tm.from@;
    let to = tm.to@;
    if !(tm.kind == Kind::Real && spec_contains(rows, from) && spec_contains(rows, to)) {
        (rows, Seq::empty())
    } else {
        let rec_from = spec_recent(rows, from);
        let rec_to = spec_recent(rows, to);
        let from_t = rec_from.1;
        let from_af = rec_from.2;
        let to_t = rec_to.1;
        let to_af = rec_to.2;
        if from_t == Torsion::Zero || to_t == Torsion::Zero {
            (rows, Seq::empty())
        } else {
            match from_t {
                Torsion::Val(fv) => {
                    let d1: Seq<DiagModel> = if from_af - fv != to_af {
                        seq![DiagModel::TauFiltrationMismatch { from, to, from_torsion: fv as int, from_af: from_af as int, to_af: to_af as int }]
                    } else {
                        Seq::empty()
                    };
                    match to_t {
                        Torsion::Val(tv) => {
                            if fits_i32(fv + tv) {
                                let r1 = spec_push(rows, to, Snapshot { page, torsion: Torsion::Zero, filtration: to_af });
                                let r2 = spec_push(r1, from, Snapshot { page: 10, torsion: Torsion::spec_of_value((fv + tv) as i32), filtration: from_af });
                                (r2, d1)
                            } else {
                                (rows, d1 + seq![DiagModel::ValueOutOfRange { from, to }])
                            }
                        },
                        _ => {
                            let r1 = spec_push(rows, to, Snapshot { page, torsion: Torsion::Zero, filtration: to_af });
                            let r2 = spec_push(r1, from, Snapshot { page: 10, torsion: Torsion::Free, filtration: from_af });
                            (r2, d1)
                        },
                    }
                },
                _ => (rows, seq![DiagModel::TauSourceFree { from, to }]),
            }
        }
    }
}

/// The table and reports after the whole tau list is applied in order.
pub open spec fn spec_replay_taus(rows: Seq<RowModel>, taus: Seq<Multiplication>, page: i32) -> (Seq<RowModel>, Seq<DiagModel>)
    decreases taus.len(),
{
    if taus.len() == 0 {
        (rows, Seq::empty())
    } else {
        let prev = spec_replay_taus(rows, taus.drop_last(), page);
        let step = spec_step_tau(prev.0, taus.last(), page);
        (step.0, prev.1 + step.1)
    }
}

/// The table restricted to one stem.
pub open spec fn spec_reduce(rows: Seq<RowModel>, stem: i32) -> Seq<RowModel>
    decreases rows.len(),
{
    if rows.len() == 0 {
        Seq::empty()
    } else {
        let rest = spec_reduce(rows.drop_last(), stem);
        if rows.last().x == stem {
            rest.push(rows.last())
        } else {
            rest
        }
    }
}

/// The collapsed most-recent state of every row.
pub open spec fn spec_final_rows(rows: Seq<RowModel>) -> Seq<FinalRowModel>
    decreases rows.len(),
{
    if rows.len() == 0 {
        Seq::empty()
    } else {
        let rest = spec_final_rows(rows.drop_last());
        let r = rows.last();
        rest.push(FinalRowModel { name: r.name, x: r.x, y: r.y, torsion: r.hist[0].torsion, filtration: r.hist[0].filtration })
    }
}

/// The full replay: seed the window, process the differential list, reduce
/// to the target stem if one was given, and for a synthetic replay to an
/// effectively infinite page apply the tau multiplications.
pub open spec fn spec_filtered(data: SyntheticEHP, category: Category, bot_trunc: i32, top_trunc: i32, page: i32, limit_x: Option<i32>) -> (Seq<RowModel>, Seq<DiagModel>) {
    let s0 = seed_rows(data.generators@, category, bot_trunc, top_trunc, limit_x);
    let r1 = spec_replay_diffs(s0, data.differentials@, category, page);
    let r2 = match limit_x {
        Some(stem) => spec_reduce(r1.0, stem),
        None => r1.0,
    };
    if category == Category::Synthetic && page > 999 {
        let r3 = spec_replay_taus(r2, data.multiplications@, page);
        (r3.0, r1.1 + r3.1)
    } else {
        (r2, r1.1)
    }
}

/// Two row tables with the same names in the same places index alike.
proof fn lemma_row_index_same_names(a: Seq<RowModel>, b: Seq<RowModel>, name: Seq<char>)
    requires
        a.len() == b.len(),
        forall|k: int| 0 <= k < a.len() ==> (#[trigger] a[k]).name == (#[trigger] b[k]).name,
    ensures
        row_index(a, name) == row_index(b, name),
    decreases a.len(),
{
    if a.len() > 0 {
        let ar = a.drop_first();
        let br = b.drop_first();
        assert(forall|k: int| 0 <= k < ar.len() ==> (#[trigger] ar[k]).name == a[k + 1].name && (#[trigger] br[k]).name == b[k + 1].name);
        lemma_row_index_same_names(ar, br, name);
    }
}

/// Pushing a snapshot moves no row and changes no name.
proof fn lemma_push_preserves_index(rows: Seq<RowModel>, name1: Seq<char>, snap: Snapshot, name2: Seq<char>)
    requires
        spec_contains(rows, name1),
    ensures
        row_index(spec_push(rows, name1, snap), name2) == row_index(rows, name2),
        spec_push(rows, name1, snap).len() == rows.len(),
    decreases rows.len(),
{
    lemma_row_index(rows, name1);
    let r = spec_push(rows, name1, snap);
    lemma_row_index_same_names(r, rows, name2);
}



impl PageSS {
    /// The stem that a held name was seeded at.
    pub fn row_x(&self, el: &String) -> (r: i32)
        requires
            spec_contains(self@, el@),
        ensures
            r == spec_row_x(self@, el@),
    {
        let i = self.find_row(el);
        proof {
            assert(self@[i as int] == self.generators@[i as int]@);
        }
        self.generators[i].x
    }

    /// Drop every row that is not on the given stem.  Used after a
    /// stem-limited replay: the neighbouring stems take part in the replay
    /// and are filtered out only here.
    pub fn reduce_to_stem(&mut self, stem: i32)
        ensures
            final(self)@ == spec_reduce(old(self)@, stem),
            rows_wf(old(self)@) ==> rows_wf(final(self)@),
    {
        let n = self.generators.len();
        let mut kept: Vec<PageRow> = Vec::new();
        let mut i: usize = 0;
        while i < n
            invariant
                n == self.generators@.len(),
                0 <= i <= n,
                *self == *old(self),
                kept@.map_values(|r: PageRow| r@) == spec_reduce(self@.take(i as int), stem),
            decreases n - i,
        {
            let ghost prev = kept@.map_values(|r: PageRow| r@);
            if self.generators[i].x == stem {
                let row = &self.generators[i];
                let mut hist: Vec<Snapshot> = Vec::new();
                let m = row.hist.len();
                let mut j: usize = 0;
                while j < m
                    invariant
                        m == row.hist@.len(),
                        0 <= j <= m,
                        hist@ == row.hist@.take(j as int),
                    decreases m - j,
                {
                    hist.push(row.hist[j]);
                    proof {
                        assert(hist@ =~= row.hist@.take(j + 1));
                    }
                    j = j + 1;
                }
                proof {
                    assert(hist@ =~= row.hist@);
                    assert(self@[i as int] == self.generators@[i as int]@);
                }
                let copied = PageRow { name: row.name.clone(), x: row.x, y: row.y, hist };
                proof {
                    assert(copied@ =~= self@[i as int]);
                }
                kept.push(copied);
            }
            proof {
                let taken = self@.take(i + 1);
                assert(taken.drop_last() =~= self@.take(i as int));
                assert(taken.last() == self@[i as int]);
                assert(self@[i as int] == self.generators@[i as int]@);
                assert(kept@.map_values(|r: PageRow| r@) =~= spec_reduce(taken, stem));
            }
            i = i + 1;
        }
        proof {
            assert(self@.take(n as int) =~= self@);
        }
        self.generators = kept;
        proof {
            if rows_wf(old(self)@) {
                lemma_reduce_wf(old(self)@, stem);
            }
        }
    }

    /// Collapse the table to the most recent (torsion, filtration) state
    /// of every generator: the answer of the replay.
    pub fn get_final_page(self) -> (r: Vec<FinalRow>)
        requires
            rows_wf(self@),
        ensures
            r@.map_values(|f: FinalRow| f@) == spec_final_rows(self@),
    {
        let n = self.generators.len();
        let mut out: Vec<FinalRow> = Vec::new();
        let mut i: usize = 0;
        while i < n
            invariant
                rows_wf(self@),
                n == self.generators@.len(),
                0 <= i <= n,
                out@.map_values(|f: FinalRow| f@) == spec_final_rows(self@.take(i as int)),
            decreases n - i,
        {
            proof {
                assert(self@[i as int] == self.generators@[i as int]@);
                assert(self@[i as int].hist.len() > 0);
            }
            let row = &self.generators[i];
            let first = &row.hist[0];
            out.push(FinalRow {
                name: row.name.clone(),
                x: row.x,
                y: row.y,
                torsion: first.torsion,
                filtration: first.filtration,
            });
            proof {
                let taken = self@.take(i + 1);
                assert(taken.drop_last() =~= self@.take(i as int));
                assert(taken.last() == self@[i as int]);
                assert(out@.map_values(|f: FinalRow| f@) =~= spec_final_rows(taken));
            }
            i = i + 1;
        }
        proof {
            assert(self@.take(n as int) =~= self@);
        }
        out
    }
}

/// Reduction keeps only rows of the table, so well-formedness carries over.
proof fn lemma_reduce_wf(rows: Seq<RowModel>, stem: i32)
    requires
        rows_wf(rows),
    ensures
        rows_wf(spec_reduce(rows, stem)),
    decreases rows.len(),
{
    if rows.len() > 0 {
        assert(rows_wf(rows.drop_last())) by {
            assert(forall|k: int| 0 <= k < rows.len() - 1 ==> rows.drop_last()[k] == rows[k]);
        }
        lemma_reduce_wf(rows.drop_last(), stem);
    }
}

/// Whether an `i64` intermediate can be recorded in a snapshot.
fn fits(v: i64) -> (r: bool)
    ensures
        r == fits_i32(v as int),
{
    i32::MIN as i64 <= v && v <= i32::MAX as i64
}

/// Apply one differential to the working table, appending any reports.
fn step_diff(pages: &mut PageSS, diags: &mut Vec<Diagnostic>, diff: &Differential, category: Category, page: i32)
    requires
        rows_wf(old(pages)@),
    ensures
        final(pages)@ == spec_step_diff(old(pages)@, *diff, category, page).0,
        diags_view(final(diags)@) == diags_view(old(diags)@) + spec_step_diff(old(pages)@, *diff, category, page).1,
        rows_wf(final(pages)@),
{
    let ghost rows0 = pages@;
    let ghost diags0 = diags@;
    if !(pages.contains(&diff.from) && pages.contains(&diff.to)) {
        proof {
            assert(diags_view(diags@) =~= diags_view(diags0) + Seq::<DiagModel>::empty());
        }
        return;
    }
    if !(diff.d < page && diff.kind == Kind::Real) {
        proof {
            assert(diags_view(diags@) =~= diags_view(diags0) + Seq::<DiagModel>::empty());
        }
        return;
    }
    match category {
        Category::Synthetic => {
            let rec_to = pages.get_recent(&diff.to);
            let rec_from = pages.get_recent(&diff.from);
            let (to_orig, to_t, to_f) = rec_to;
            let (_from_orig, from_t, from_f) = rec_from;
            let eff_w: i64 = diff.coeff as i64 - (to_orig as i64 - to_f as i64);
            if to_t.is_zero() || from_t.is_zero() {
                proof {
                    assert(diags_view(diags@) =~= diags_view(diags0) + Seq::<DiagModel>::empty());
                }
                return;
            }
            let to_x = pages.row_x(&diff.to);
            if to_f as i64 != from_f as i64 + 1 + eff_w && to_x <= MAX_VERIFY_STEM {
                diags.push(Diagnostic::FiltrationMismatch {
                    from: diff.from.clone(),
                    to: diff.to.clone(),
                    from_filt: from_f,
                    to_filt: to_f,
                    coeff: eff_w,
                });
            }
            match to_t {
                Torsion::Free => {
                    let from_is_val = match from_t {
                        Torsion::Val(_) => true,
                        _ => false,
                    };
                    if from_is_val && to_x <= MAX_VERIFY_STEM {
                        diags.push(Diagnostic::TorsionToFree { from: diff.from.clone(), to: diff.to.clone() });
                    }
                    if fits(eff_w) {
                        pages.insert(&diff.from, diff.d, Torsion::Zero, from_f);
                        proof {
                            lemma_push_preserves_index(rows0, diff.from@, Snapshot { page: diff.d, torsion: Torsion::Zero, filtration: from_f }, diff.to@);
                        }
                        pages.insert(&diff.to, diff.d, Torsion::of_value(eff_w as i32), to_f);
                    } else {
                        diags.push(Diagnostic::ValueOutOfRange { from: diff.from.clone(), to: diff.to.clone() });
                    }
                },
                Torsion::Val(tv) => {
                    let new_from_f_w: i64 = from_f as i64 - tv as i64 + eff_w;
                    match from_t {
                        Torsion::Val(fv) => {
                            if fv >= 0 && (fv as i64 + eff_w) < tv as i64 && to_x <= MAX_VERIFY_STEM {
                                diags.push(Diagnostic::LowerToHigher {
                                    from: diff.from.clone(),
                                    to: diff.to.clone(),
                                    from_torsion: fv,
                                    to_torsion: tv,
                                    coeff: eff_w,
                                });
                            }
                            let new_fv_w: i64 = fv as i64 - tv as i64 + eff_w;
                            if new_fv_w < 0 && to_x <= MAX_VERIFY_STEM {
                                diags.push(Diagnostic::NegativeTorsion {
                                    from: diff.from.clone(),
                                    to: diff.to.clone(),
                                    value: new_fv_w,
                                });
                            }
                            if fits(eff_w) && fits(new_from_f_w) && fits(new_fv_w) {
                                pages.insert(&diff.from, diff.d, Torsion::of_value(new_fv_w as i32), new_from_f_w as i32);
                                proof {
                                    lemma_push_preserves_index(rows0, diff.from@, Snapshot { page: diff.d, torsion: Torsion::spec_of_value(new_fv_w as i32), filtration: new_from_f_w as i32 }, diff.to@);
                                }
                                pages.insert(&diff.to, diff.d, Torsion::of_value(eff_w as i32), to_f);
                            } else {
                                diags.push(Diagnostic::ValueOutOfRange { from: diff.from.clone(), to: diff.to.clone() });
                            }
                        },
                        Torsion::Free => {
                            if fits(eff_w) && fits(new_from_f_w) {
                                pages.insert(&diff.from, diff.d, Torsion::Free, new_from_f_w as i32);
                                proof {
                                    lemma_push_preserves_index(rows0, diff.from@, Snapshot { page: diff.d, torsion: Torsion::Free, filtration: new_from_f_w as i32 }, diff.to@);
                                }
                                pages.insert(&diff.to, diff.d, Torsion::of_value(eff_w as i32), to_f);
                            } else {
                                diags.push(Diagnostic::ValueOutOfRange { from: diff.from.clone(), to: diff.to.clone() });
                            }
                        },
                        Torsion::Zero => {},
                    }
                },
                Torsion::Zero => {},
            }
            proof {
                assert(diags_view(diags@) =~= diags_view(diags0) + spec_step_diff(rows0, *diff, category, page).1);
            }
        },
        Category::Algebraic => {
            if diff.coeff == 0 && !diff.synthetic {
                let from_f = pages.get_recent(&diff.from).2;
                let to_f = pages.get_recent(&diff.to).2;
                pages.insert(&diff.from, diff.d, Torsion::Zero, from_f);
                proof {
                    lemma_push_preserves_index(rows0, diff.from@, Snapshot { page: diff.d, torsion: Torsion::Zero, filtration: from_f }, diff.to@);
                }
                pages.insert(&diff.to, diff.d, Torsion::Zero, to_f);
            }
            proof {
                assert(diags_view(diags@) =~= diags_view(diags0) + Seq::<DiagModel>::empty());
            }
        },
        Category::Classical => {
            let to_t = pages.get_recent(&diff.to).1;
            let to_f = pages.get_recent(&diff.to).2;
            let from_f = pages.get_recent(&diff.from).2;
            if !to_t.is_zero() {
                pages.insert(&diff.from, diff.d, Torsion::Zero, from_f);
                proof {
                    lemma_push_preserves_index(rows0, diff.from@, Snapshot { page: diff.d, torsion: Torsion::Zero, filtration: from_f }, diff.to@);
                }
                pages.insert(&diff.to, diff.d, Torsion::Zero, to_f);
            }
            proof {
                assert(diags_view(diags@) =~= diags_view(diags0) + Seq::<DiagModel>::empty());
            }
        },
    }
}



/// Apply one tau multiplication to the working table, appending any
/// reports.
fn step_tau(pages: &mut PageSS, diags: &mut Vec<Diagnostic>, tm: &Multiplication, page: i32)
    requires
        rows_wf(old(pages)@),
    ensures
        final(pages)@ == spec_step_tau(old(pages)@, *tm, page).0,
        diags_view(final(diags)@) == diags_view(old(diags)@) + spec_step_tau(old(pages)@, *tm, page).1,
        rows_wf(final(pages)@),
{
    let ghost rows0 = pages@;
    let ghost diags0 = diags@;
    let is_real = match tm.kind {
        Kind::Real => true,
        Kind::Fake => false,
    };
    if !(is_real && pages.contains(&tm.from) && pages.contains(&tm.to)) {
        proof {
            assert(diags_view(diags@) =~= diags_view(diags0) + Seq::<DiagModel>::empty());
        }
        return;
    }
    let rec_from = pages.get_recent(&tm.from);
    let rec_to = pages.get_recent(&tm.to);
    let (_f_orig, from_t, from_af) = rec_from;
    let (_t_orig, to_t, to_af) = rec_to;
    if from_t.is_zero() || to_t.is_zero() {
        proof {
            assert(diags_view(diags@) =~= diags_view(diags0) + Seq::<DiagModel>::empty());
        }
        return;
    }
    match from_t {
        Torsion::Val(fv) => {
            if from_af as i64 - fv as i64 != to_af as i64 {
                diags.push(Diagnostic::TauFiltrationMismatch {
                    from: tm.from.clone(),
                    to: tm.to.clone(),
                    from_torsion: fv,
                    from_af,
                    to_af,
                });
            }
            match to_t {
                Torsion::Val(tv) => {
                    let sum_w: i64 = fv as i64 + tv as i64;
                    if fits(sum_w) {
                        pages.insert(&tm.to, page, Torsion::Zero, to_af);
                        proof {
                            lemma_push_preserves_index(rows0, tm.to@, Snapshot { page, torsion: Torsion::Zero, filtration: to_af }, tm.from@);
                        }
                        // the page recorded for the source here is a
                        // provisional index carried over from the data set
                        pages.insert(&tm.from, 10, Torsion::of_value(sum_w as i32), from_af);
                    } else {
                        diags.push(Diagnostic::ValueOutOfRange { from: tm.from.clone(), to: tm.to.clone() });
                    }
                },
                _ => {
                    pages.insert(&tm.to, page, Torsion::Zero, to_af);
                    proof {
                        lemma_push_preserves_index(rows0, tm.to@, Snapshot { page, torsion: Torsion::Zero, filtration: to_af }, tm.from@);
                    }
                    pages.insert(&tm.from, 10, Torsion::Free, from_af);
                },
            }
        },
        _ => {
            diags.push(Diagnostic::TauSourceFree { from: tm.from.clone(), to: tm.to.clone() });
        },
    }
    proof {
        assert(diags_view(diags@) =~= diags_view(diags0) + spec_step_tau(rows0, *tm, page).1);
    }
}

/// Replay the relation graph for one category over a truncation window up
/// to (but not including) `page`, and hand back the resulting table
/// together with every consistency report the replay raised.
pub fn get_filtered_data(
    data: &SyntheticEHP,
    category: Category,
    bot_trunc: i32,
    top_trunc: i32,
    page: i32,
    limit_x: Option<i32>,
) -> (r: (PageSS, Vec<Diagnostic>))
    requires
        data.torsion_wf(),
    ensures
        r.0@ == spec_filtered(*data, category, bot_trunc, top_trunc, page, limit_x).0,
        diags_view(r.1@) == spec_filtered(*data, category, bot_trunc, top_trunc, page, limit_x).1,
        rows_wf(r.0@),
{
    let mut pages = PageSS::fill(data, category, bot_trunc, top_trunc, limit_x);
    let mut diags: Vec<Diagnostic> = Vec::new();
    let ghost seed = pages@;
    proof {
        assert(diags_view(diags@) =~= Seq::<DiagModel>::empty());
    }

    let nd = data.differentials.len();
    let mut k: usize = 0;
    while k < nd
        invariant
            data.torsion_wf(),
            nd == data.differentials@.len(),
            0 <= k <= nd,
            seed == seed_rows(data.generators@, category, bot_trunc, top_trunc, limit_x),
            pages@ == spec_replay_diffs(seed, data.differentials@.take(k as int), category, page).0,
            diags_view(diags@) == spec_replay_diffs(seed, data.differentials@.take(k as int), category, page).1,
            rows_wf(pages@),
        decreases nd - k,
    {
        step_diff(&mut pages, &mut diags, &data.differentials[k], category, page);
        proof {
            let taken = data.differentials@.take(k + 1);
            assert(taken.drop_last() =~= data.differentials@.take(k as int));
            assert(taken.last() == data.differentials@[k as int]);
        }
        k = k + 1;
    }
    proof {
        assert(data.differentials@.take(nd as int) =~= data.differentials@);
    }
    let ghost after_diffs_rows = pages@;
    let ghost after_diffs_diags = diags_view(diags@);

    // relations from the neighbouring stems take part in the replay; only
    // now is the table narrowed to the requested stem
    match limit_x {
        Some(stem) => {
            pages.reduce_to_stem(stem);
        },
        None => {},
    }
    let ghost reduced = pages@;

    let is_synthetic = match category {
        Category::Synthetic => true,
        _ => false,
    };
    if is_synthetic && page > 999 {
        let nt = data.multiplications.len();
        let mut t: usize = 0;
        while t < nt
            invariant
                nt == data.multiplications@.len(),
                0 <= t <= nt,
                pages@ == spec_replay_taus(reduced, data.multiplications@.take(t as int), page).0,
                diags_view(diags@) == after_diffs_diags + spec_replay_taus(reduced, data.multiplications@.take(t as int), page).1,
                rows_wf(pages@),
            decreases nt - t,
        {
            let ghost before = pages@;
            let ghost dbefore = diags_view(diags@);
            step_tau(&mut pages, &mut diags, &data.multiplications[t], page);
            proof {
                let taken = data.multiplications@.take(t + 1);
                assert(taken.drop_last() =~= data.multiplications@.take(t as int));
                assert(taken.last() == data.multiplications@[t as int]);
                assert(diags_view(diags@) =~= after_diffs_diags + spec_replay_taus(reduced, taken, page).1);
            }
            t = t + 1;
        }
        proof {
            assert(data.multiplications@.take(nt as int) =~= data.multiplications@);
        }
    }
    proof {
        if is_synthetic && page > 999 {
        } else {
            assert(diags_view(diags@) =~= after_diffs_diags + Seq::<DiagModel>::empty());
        }
    }
    (pages, diags)
}



/// Every snapshot of every row is torsion-free or exactly zero.
pub open spec fn kill_only_rows(rows: Seq<RowModel>) -> bool {
    forall|i: int, j: int|
        0 <= i < rows.len() && 0 <= j < (#[trigger] rows[i]).hist.len()
            ==> (#[trigger] rows[i].hist[j]).torsion == Torsion::Free || rows[i].hist[j].torsion == Torsion::Zero
}

proof fn lemma_seed_kill_only(gens: Seq<Generator>, category: Category, bot: i32, top: i32, limit_x: Option<i32>)
    requires
        category == Category::Algebraic || category == Category::Classical,
    ensures
        kill_only_rows(seed_rows(gens, category, bot, top, limit_x)),
    decreases gens.len(),
{
    if gens.len() > 0 {
        lemma_seed_kill_only(gens.drop_last(), category, bot, top, limit_x);
        let rest = seed_rows(gens.drop_last(), category, bot, top, limit_x);
        let r = seed_rows(gens, category, bot, top, limit_x);
        match seed_row(gens.last(), category, bot, top, limit_x) {
            Some(row) => {
                assert(forall|k: int| 0 <= k < rest.len() ==> r[k] == rest[k]);
                assert(r.last() == row);
            },
            None => {},
        }
    }
}

proof fn lemma_push_kill_only(rows: Seq<RowModel>, name: Seq<char>, snap: Snapshot)
    requires
        kill_only_rows(rows),
        spec_contains(rows, name),
        snap.torsion == Torsion::Free || snap.torsion == Torsion::Zero,
    ensures
        kill_only_rows(spec_push(rows, name, snap)),
{
    lemma_row_index(rows, name);
    let i = row_index(rows, name);
    let r = spec_push(rows, name, snap);
    assert forall|a: int, b: int|
        0 <= a < r.len() && 0 <= b < (#[trigger] r[a]).hist.len() implies (#[trigger] r[a].hist[b]).torsion
        == Torsion::Free || r[a].hist[b].torsion == Torsion::Zero by {
        if a == i {
            if b > 0 {
                assert(r[a].hist[b] == rows[i].hist[b - 1]);
            }
        } else {
            assert(r[a] == rows[a]);
        }
    }
}

proof fn lemma_step_kill_only(rows: Seq<RowModel>, diff: Differential, category: Category, page: i32)
    requires
        kill_only_rows(rows),
        category == Category::Algebraic || category == Category::Classical,
    ensures
        kill_only_rows(spec_step_diff(rows, diff, category, page).0),
{
    if spec_contains(rows, diff.from@) && spec_contains(rows, diff.to@) && diff.d < page
        && diff.kind == Kind::Real {
        let from_f = spec_recent(rows, diff.from@).2;
        let to_f = spec_recent(rows, diff.to@).2;
        let s1 = Snapshot { page: diff.d, torsion: Torsion::Zero, filtration: from_f };
        let s2 = Snapshot { page: diff.d, torsion: Torsion::Zero, filtration: to_f };
        if category == Category::Algebraic {
            if diff.coeff == 0 && !diff.synthetic {
                lemma_push_kill_only(rows, diff.from@, s1);
                lemma_push_preserves_index(rows, diff.from@, s1, diff.to@);
                lemma_push_kill_only(spec_push(rows, diff.from@, s1), diff.to@, s2);
            }
        } else {
            if spec_recent(rows, diff.to@).1 != Torsion::Zero {
                lemma_push_kill_only(rows, diff.from@, s1);
                lemma_push_preserves_index(rows, diff.from@, s1, diff.to@);
                lemma_push_kill_only(spec_push(rows, diff.from@, s1), diff.to@, s2);
            }
        }
    }
}

proof fn lemma_replay_kill_only(rows: Seq<RowModel>, diffs: Seq<Differential>, category: Category, page: i32)
    requires
        kill_only_rows(rows),
        category == Category::Algebraic || category == Category::Classical,
    ensures
        kill_only_rows(spec_replay_diffs(rows, diffs, category, page).0),
    decreases diffs.len(),
{
    if diffs.len() > 0 {
        lemma_replay_kill_only(rows, diffs.drop_last(), category, page);
        lemma_step_kill_only(spec_replay_diffs(rows, diffs.drop_last(), category, page).0, diffs.last(), category, page);
    }
}

proof fn lemma_reduce_kill_only(rows: Seq<RowModel>, stem: i32)
    requires
        kill_only_rows(rows),
    ensures
        kill_only_rows(spec_reduce(rows, stem)),
    decreases rows.len(),
{
    if rows.len() > 0 {
        assert(kill_only_rows(rows.drop_last())) by {
            assert(forall|k: int| 0 <= k < rows.len() - 1 ==> rows.drop_last()[k] == rows[k]);
        }
        lemma_reduce_kill_only(rows.drop_last(), stem);
        let rest = spec_reduce(rows.drop_last(), stem);
        let r = spec_reduce(rows, stem);
        if rows.last().x == stem {
            assert(forall|k: int| 0 <= k < rest.len() ==> r[k] == rest[k]);
            assert(r.last() == rows.last());
        }
    }
}

/// An algebraic-category replay ignores torsion by construction: every
/// generator of the final page is torsion-free unless a relation killed
/// it, and no generator ever carries a torsion value.
pub proof fn lemma_algebraic_torsion_free(data: SyntheticEHP, bot_trunc: i32, top_trunc: i32, page: i32, limit_x: Option<i32>)
    ensures
        forall|i: int|
            0 <= i < spec_final_rows(spec_filtered(data, Category::Algebraic, bot_trunc, top_trunc, page, limit_x).0).len()
                ==> {
                    let t = (#[trigger] spec_final_rows(spec_filtered(data, Category::Algebraic, bot_trunc, top_trunc, page, limit_x).0)[i]).torsion;
                    t == Torsion::Free || t == Torsion::Zero
                },
{
    let seed = seed_rows(data.generators@, Category::Algebraic, bot_trunc, top_trunc, limit_x);
    lemma_seed_kill_only(data.generators@, Category::Algebraic, bot_trunc, top_trunc, limit_x);
    lemma_seed_wf(data.generators@, Category::Algebraic, bot_trunc, top_trunc, limit_x);
    lemma_replay_kill_only(seed, data.differentials@, Category::Algebraic, page);
    lemma_replay_diffs_wf(seed, data.differentials@, Category::Algebraic, page);
    let replayed = spec_replay_diffs(seed, data.differentials@, Category::Algebraic, page).0;
    let rows = spec_filtered(data, Category::Algebraic, bot_trunc, top_trunc, page, limit_x).0;
    match limit_x {
        Some(stem) => {
            lemma_reduce_kill_only(replayed, stem);
            lemma_reduce_wf(replayed, stem);
        },
        None => {},
    }
    lemma_final_rows_torsion(rows);
}

/// The collapsed page reads each row's most recent snapshot.
proof fn lemma_final_rows_torsion(rows: Seq<RowModel>)
    requires
        kill_only_rows(rows),
        rows_wf(rows),
    ensures
        forall|i: int|
            0 <= i < spec_final_rows(rows).len() ==> {
                let t = (#[trigger] spec_final_rows(rows)[i]).torsion;
                t == Torsion::Free || t == Torsion::Zero
            },
    decreases rows.len(),
{
    if rows.len() > 0 {
        assert(kill_only_rows(rows.drop_last())) by {
            assert(forall|k: int| 0 <= k < rows.len() - 1 ==> rows.drop_last()[k] == rows[k]);
        }
        assert(rows_wf(rows.drop_last())) by {
            assert(forall|k: int| 0 <= k < rows.len() - 1 ==> rows.drop_last()[k] == rows[k]);
        }
        lemma_final_rows_torsion(rows.drop_last());
        let rest = spec_final_rows(rows.drop_last());
        let r = spec_final_rows(rows);
        assert(forall|k: int| 0 <= k < rest.len() ==> r[k] == rest[k]);
        assert(rows.last().hist.len() > 0);
        assert(r.last().torsion == rows.last().hist[0].torsion);
    }
}

/// A freshly seeded table is well-formed whenever the store's recorded
/// torsions are.
proof fn lemma_seed_wf(gens: Seq<Generator>, category: Category, bot: i32, top: i32, limit_x: Option<i32>)
    requires
        category == Category::Synthetic ==> forall|i: int|
            0 <= i < gens.len() ==> (#[trigger] gens[i]).torsion.wf(),
    ensures
        rows_wf(seed_rows(gens, category, bot, top, limit_x)),
    decreases gens.len(),
{
    if gens.len() > 0 {
        assert(category == Category::Synthetic ==> forall|i: int|
            0 <= i < gens.len() - 1 ==> (#[trigger] gens.drop_last()[i]).torsion.wf()) by {
            if category == Category::Synthetic {
                assert(forall|i: int| 0 <= i < gens.len() - 1 ==> gens.drop_last()[i] == gens[i]);
            }
        }
        lemma_seed_wf(gens.drop_last(), category, bot, top, limit_x);
        let rest = seed_rows(gens.drop_last(), category, bot, top, limit_x);
        let r = seed_rows(gens, category, bot, top, limit_x);
        match seed_row(gens.last(), category, bot, top, limit_x) {
            Some(row) => {
                assert(forall|k: int| 0 <= k < rest.len() ==> r[k] == rest[k]);
                assert(r.last() == row);
                assert(gens.last() == gens[gens.len() - 1]);
            },
            None => {},
        }
    }
}

/// What a push does to the recent state of any name: the pushed name takes
/// the new snapshot as its most recent state, every other name is
/// untouched, and the seeding filtration of every name is unchanged.
proof fn lemma_push_effect(rows: Seq<RowModel>, n1: Seq<char>, snap: Snapshot, n2: Seq<char>)
    requires
        rows_wf(rows),
        spec_contains(rows, n1),
        spec_contains(rows, n2),
    ensures
        spec_contains(spec_push(rows, n1, snap), n2),
        row_index(rows, n2) == row_index(rows, n1) ==> spec_recent(spec_push(rows, n1, snap), n2)
            == (spec_recent(rows, n2).0, snap.torsion, snap.filtration),
        row_index(rows, n2) != row_index(rows, n1) ==> spec_recent(spec_push(rows, n1, snap), n2)
            == spec_recent(rows, n2),
{
    lemma_row_index(rows, n1);
    lemma_row_index(rows, n2);
    lemma_push_preserves_index(rows, n1, snap, n2);
    let i = row_index(rows, n1);
    let j = row_index(rows, n2);
    let r = spec_push(rows, n1, snap);
    if j == i {
        assert(rows[i].hist.len() > 0);
        assert(r[i].hist == seq![snap] + rows[i].hist);
        assert(r[i].hist.last() == rows[i].hist.last());
        assert(r[i].hist[0] == snap);
    } else {
        assert(r[j] == rows[j]);
    }
}

/// One relation step never revives a killed generator: if a name's most
/// recent torsion is exactly zero, it is exactly zero after the step too.
proof fn lemma_step_zero_terminal(rows: Seq<RowModel>, diff: Differential, category: Category, page: i32, name: Seq<char>)
    requires
        rows_wf(rows),
        spec_contains(rows, name),
        spec_recent(rows, name).1 == Torsion::Zero,
    ensures
        spec_contains(spec_step_diff(rows, diff, category, page).0, name),
        spec_recent(spec_step_diff(rows, diff, category, page).0, name).1 == Torsion::Zero,
{
    let from = diff.from@;
    let to = diff.to@;
    if spec_contains(rows, from) && spec_contains(rows, to) && diff.d < page && diff.kind == Kind::Real {
        lemma_row_index(rows, from);
        lemma_row_index(rows, to);
        lemma_row_index(rows, name);
        let rec_to = spec_recent(rows, to);
        let rec_from = spec_recent(rows, from);
        match category {
            Category::Synthetic => {
                if rec_to.1 == Torsion::Zero || rec_from.1 == Torsion::Zero {
                    // the step is inert; in particular a step touching the
                    // killed name is always inert
                } else {
                    assert(row_index(rows, name) != row_index(rows, from)) by {
                        if row_index(rows, name) == row_index(rows, from) {
                            assert(spec_recent(rows, name) == spec_recent(rows, from));
                        }
                    }
                    assert(row_index(rows, name) != row_index(rows, to)) by {
                        if row_index(rows, name) == row_index(rows, to) {
                            assert(spec_recent(rows, name) == spec_recent(rows, to));
                        }
                    }
                    lemma_two_push_other(rows, from, to, name, diff, category, page);
                }
            },
            Category::Algebraic => {
                if diff.coeff == 0 && !diff.synthetic {
                    lemma_two_push_zero(rows, from, to, name, diff, category, page);
                }
            },
            Category::Classical => {
                if rec_to.1 != Torsion::Zero {
                    assert(row_index(rows, name) != row_index(rows, to)) by {
                        if row_index(rows, name) == row_index(rows, to) {
                            assert(spec_recent(rows, name) == spec_recent(rows, to));
                        }
                    }
                    lemma_two_push_zero(rows, from, to, name, diff, category, page);
                }
            },
        }
    }
}

/// Helper for the synthetic arm: both pushes of the step land on rows
/// other than the observed one.
proof fn lemma_two_push_other(rows: Seq<RowModel>, from: Seq<char>, to: Seq<char>, name: Seq<char>, diff: Differential, category: Category, page: i32)
    requires
        rows_wf(rows),
        category == Category::Synthetic,
        spec_contains(rows, from),
        spec_contains(rows, to),
        spec_contains(rows, name),
        diff.from@ == from,
        diff.to@ == to,
        row_index(rows, name) != row_index(rows, from),
        row_index(rows, name) != row_index(rows, to),
    ensures
        spec_contains(spec_step_diff(rows, diff, category, page).0, name),
        spec_recent(spec_step_diff(rows, diff, category, page).0, name) == spec_recent(rows, name),
{
    let rec_to = spec_recent(rows, to);
    let rec_from = spec_recent(rows, from);
    let eff = diff.coeff - (rec_to.0 - rec_to.2);
    let to_f = rec_to.2;
    let from_f = rec_from.2;
    match rec_to.1 {
        Torsion::Free => {
            if fits_i32(eff) {
                lemma_double_push_other(
                    rows,
                    from,
                    to,
                    name,
                    Snapshot { page: diff.d, torsion: Torsion::Zero, filtration: from_f },
                    Snapshot { page: diff.d, torsion: Torsion::spec_of_value(eff as i32), filtration: to_f },
                );
            }
        },
        Torsion::Val(tv) => {
            let new_from_f = from_f - tv + eff;
            match rec_from.1 {
                Torsion::Val(fv) => {
                    let new_fv = fv - tv + eff;
                    if fits_i32(eff) && fits_i32(new_from_f) && fits_i32(new_fv) {
                        lemma_double_push_other(
                            rows,
                            from,
                            to,
                            name,
                            Snapshot { page: diff.d, torsion: Torsion::spec_of_value(new_fv as i32), filtration: new_from_f as i32 },
                            Snapshot { page: diff.d, torsion: Torsion::spec_of_value(eff as i32), filtration: to_f },
                        );
                    }
                },
                Torsion::Free => {
                    if fits_i32(eff) && fits_i32(new_from_f) {
                        lemma_double_push_other(
                            rows,
                            from,
                            to,
                            name,
                            Snapshot { page: diff.d, torsion: Torsion::Free, filtration: new_from_f as i32 },
                            Snapshot { page: diff.d, torsion: Torsion::spec_of_value(eff as i32), filtration: to_f },
                        );
                    }
                },
                Torsion::Zero => {},
            }
        },
        Torsion::Zero => {},
    }
}

/// Two pushes on rows other than the observed one leave its recent state
/// alone.
proof fn lemma_double_push_other(rows: Seq<RowModel>, from: Seq<char>, to: Seq<char>, name: Seq<char>, s1: Snapshot, s2: Snapshot)
    requires
        spec_contains(rows, from),
        spec_contains(rows, to),
        spec_contains(rows, name),
        row_index(rows, name) != row_index(rows, from),
        row_index(rows, name) != row_index(rows, to),
    ensures
        spec_contains(spec_push(spec_push(rows, from, s1), to, s2), name),
        spec_recent(spec_push(spec_push(rows, from, s1), to, s2), name) == spec_recent(rows, name),
{
    lemma_push_effect_recent_only(rows, from, s1, name);
    lemma_push_preserves_index(rows, from, s1, to);
    lemma_push_preserves_index(rows, from, s1, name);
    lemma_push_effect_recent_only(spec_push(rows, from, s1), to, s2, name);
}

/// Pushing on one name leaves the recent state of a different row alone,
/// without any well-formedness demand on the pushed snapshot.
proof fn lemma_push_effect_recent_only(rows: Seq<RowModel>, n1: Seq<char>, snap: Snapshot, n2: Seq<char>)
    requires
        spec_contains(rows, n1),
        spec_contains(rows, n2),
        row_index(rows, n2) != row_index(rows, n1),
    ensures
        spec_contains(spec_push(rows, n1, snap), n2),
        spec_recent(spec_push(rows, n1, snap), n2) == spec_recent(rows, n2),
{
    lemma_row_index(rows, n1);
    lemma_row_index(rows, n2);
    lemma_push_preserves_index(rows, n1, snap, n2);
    let i = row_index(rows, n1);
    let j = row_index(rows, n2);
    assert(spec_push(rows, n1, snap)[j] == rows[j]);
}

/// Helper for the kill-only arms: both pushes carry the killed state, so
/// the observed name stays killed whether or not a push lands on it.
proof fn lemma_two_push_zero(rows: Seq<RowModel>, from: Seq<char>, to: Seq<char>, name: Seq<char>, diff: Differential, category: Category, page: i32)
    requires
        rows_wf(rows),
        category == Category::Algebraic || category == Category::Classical,
        spec_contains(rows, from),
        spec_contains(rows, to),
        spec_contains(rows, name),
        diff.from@ == from,
        diff.to@ == to,
        spec_recent(rows, name).1 == Torsion::Zero,
        spec_step_diff(rows, diff, category, page).0 != rows ==> {
            let from_f = spec_recent(rows, from).2;
            let to_f = spec_recent(rows, to).2;
            spec_step_diff(rows, diff, category, page).0 == spec_push(
                spec_push(rows, from, Snapshot { page: diff.d, torsion: Torsion::Zero, filtration: from_f }),
                to,
                Snapshot { page: diff.d, torsion: Torsion::Zero, filtration: to_f },
            )
        },
    ensures
        spec_contains(spec_step_diff(rows, diff, category, page).0, name),
        spec_recent(spec_step_diff(rows, diff, category, page).0, name).1 == Torsion::Zero,
{
    let r = spec_step_diff(rows, diff, category, page).0;
    if r != rows {
        let from_f = spec_recent(rows, from).2;
        let to_f = spec_recent(rows, to).2;
        let s1 = Snapshot { page: diff.d, torsion: Torsion::Zero, filtration: from_f };
        let s2 = Snapshot { page: diff.d, torsion: Torsion::Zero, filtration: to_f };
        lemma_push_effect(rows, from, s1, name);
        lemma_push_effect(rows, from, s1, to);
        lemma_push_preserves_index(rows, from, s1, to);
        lemma_push_preserves_index(rows, from, s1, name);
        let r1 = spec_push(rows, from, s1);
        lemma_row_index(rows, from);
        lemma_row_index(rows, to);
        lemma_row_index(rows, name);
        if row_index(rows, name) == row_index(r1, to) {
            lemma_push_preserves_index(r1, to, s2, name);
            assert(spec_push(r1, to, s2)[row_index(r1, to)].hist[0] == s2);
        } else {
            lemma_push_effect_recent_only(r1, to, s2, name);
            if row_index(rows, name) == row_index(rows, from) {
                assert(spec_recent(r1, name).1 == s1.torsion);
            }
        }
    }
}

/// Once a generator's most recent torsion is exactly zero, no later
/// differential of the replay changes it: the killed state is terminal.
pub proof fn lemma_zero_terminal_diffs(rows: Seq<RowModel>, diffs: Seq<Differential>, category: Category, page: i32, name: Seq<char>)
    requires
        rows_wf(rows),
        spec_contains(rows, name),
        spec_recent(rows, name).1 == Torsion::Zero,
    ensures
        spec_contains(spec_replay_diffs(rows, diffs, category, page).0, name),
        spec_recent(spec_replay_diffs(rows, diffs, category, page).0, name).1 == Torsion::Zero,
    decreases diffs.len(),
{
    if diffs.len() > 0 {
        lemma_zero_terminal_diffs(rows, diffs.drop_last(), category, page, name);
        let prev = spec_replay_diffs(rows, diffs.drop_last(), category, page).0;
        lemma_replay_diffs_wf(rows, diffs.drop_last(), category, page);
        lemma_step_zero_terminal(prev, diffs.last(), category, page, name);
    }
}

/// Replay preserves table well-formedness.
proof fn lemma_step_diff_wf(rows: Seq<RowModel>, diff: Differential, category: Category, page: i32)
    requires
        rows_wf(rows),
    ensures
        rows_wf(spec_step_diff(rows, diff, category, page).0),
{
    lemma_step_diff_wf_helper(rows, diff, category, page);
}

proof fn lemma_push_wf(rows: Seq<RowModel>, name: Seq<char>, snap: Snapshot)
    requires
        rows_wf(rows),
        spec_contains(rows, name),
        snap.torsion.wf(),
    ensures
        rows_wf(spec_push(rows, name, snap)),
{
    lemma_row_index(rows, name);
    let i = row_index(rows, name);
    let r = spec_push(rows, name, snap);
    assert forall|a: int| 0 <= a < r.len() implies (#[trigger] r[a]).hist.len() > 0 && (forall|b: int|
        0 <= b < r[a].hist.len() ==> (#[trigger] r[a].hist[b]).torsion.wf()) by {
        if a == i {
            assert forall|b: int| 0 <= b < r[a].hist.len() implies (#[trigger] r[a].hist[b]).torsion.wf() by {
                if b > 0 {
                    assert(r[a].hist[b] == rows[a].hist[b - 1]);
                } else {
                    assert(r[a].hist[0] == snap);
                }
            }
        } else {
            assert(r[a] == rows[a]);
        }
    }
}

proof fn lemma_step_diff_wf_helper(rows: Seq<RowModel>, diff: Differential, category: Category, page: i32)
    requires
        rows_wf(rows),
    ensures
        rows_wf(spec_step_diff(rows, diff, category, page).0),
{
    let from = diff.from@;
    let to = diff.to@;
    if spec_contains(rows, from) && spec_contains(rows, to) && diff.d < page && diff.kind == Kind::Real {
        let rec_to = spec_recent(rows, to);
        let rec_from = spec_recent(rows, from);
        let eff = diff.coeff - (rec_to.0 - rec_to.2);
        match category {
            Category::Synthetic => {
                if rec_to.1 == Torsion::Zero || rec_from.1 == Torsion::Zero {
                } else {
                    let to_f = rec_to.2;
                    let from_f = rec_from.2;
                    match rec_to.1 {
                        Torsion::Free => {
                            if fits_i32(eff) {
                                lemma_double_push_wf(
                                    rows,
                                    from,
                                    to,
                                    Snapshot { page: diff.d, torsion: Torsion::Zero, filtration: from_f },
                                    Snapshot { page: diff.d, torsion: Torsion::spec_of_value(eff as i32), filtration: to_f },
                                );
                            }
                        },
                        Torsion::Val(tv) => {
                            let new_from_f = from_f - tv + eff;
                            match rec_from.1 {
                                Torsion::Val(fv) => {
                                    let new_fv = fv - tv + eff;
                                    if fits_i32(eff) && fits_i32(new_from_f) && fits_i32(new_fv) {
                                        lemma_double_push_wf(
                                            rows,
                                            from,
                                            to,
                                            Snapshot { page: diff.d, torsion: Torsion::spec_of_value(new_fv as i32), filtration: new_from_f as i32 },
                                            Snapshot { page: diff.d, torsion: Torsion::spec_of_value(eff as i32), filtration: to_f },
                                        );
                                    }
                                },
                                Torsion::Free => {
                                    if fits_i32(eff) && fits_i32(new_from_f) {
                                        lemma_double_push_wf(
                                            rows,
                                            from,
                                            to,
                                            Snapshot { page: diff.d, torsion: Torsion::Free, filtration: new_from_f as i32 },
                                            Snapshot { page: diff.d, torsion: Torsion::spec_of_value(eff as i32), filtration: to_f },
                                        );
                                    }
                                },
                                Torsion::Zero => {},
                            }
                        },
                        Torsion::Zero => {},
                    }
                }
            },
            Category::Algebraic => {
                if diff.coeff == 0 && !diff.synthetic {
                    let s1 = Snapshot { page: diff.d, torsion: Torsion::Zero, filtration: rec_from.2 };
                    let s2 = Snapshot { page: diff.d, torsion: Torsion::Zero, filtration: rec_to.2 };
                    lemma_push_wf(rows, from, s1);
                    lemma_push_preserves_index(rows, from, s1, to);
                    lemma_push_wf(spec_push(rows, from, s1), to, s2);
                }
            },
            Category::Classical => {
                if rec_to.1 != Torsion::Zero {
                    let s1 = Snapshot { page: diff.d, torsion: Torsion::Zero, filtration: rec_from.2 };
                    let s2 = Snapshot { page: diff.d, torsion: Torsion::Zero, filtration: rec_to.2 };
                    lemma_push_wf(rows, from, s1);
                    lemma_push_preserves_index(rows, from, s1, to);
                    lemma_push_wf(spec_push(rows, from, s1), to, s2);
                }
            },
        }
    }
}

proof fn lemma_replay_diffs_wf(rows: Seq<RowModel>, diffs: Seq<Differential>, category: Category, page: i32)
    requires
        rows_wf(rows),
    ensures
        rows_wf(spec_replay_diffs(rows, diffs, category, page).0),
    decreases diffs.len(),
{
    if diffs.len() > 0 {
        lemma_replay_diffs_wf(rows, diffs.drop_last(), category, page);
        lemma_step_diff_wf(spec_replay_diffs(rows, diffs.drop_last(), category, page).0, diffs.last(), category, page);
    }
}

/// The tau pass does not revive a killed generator either.
pub proof fn lemma_zero_terminal_taus(rows: Seq<RowModel>, taus: Seq<Multiplication>, page: i32, name: Seq<char>)
    requires
        rows_wf(rows),
        spec_contains(rows, name),
        spec_recent(rows, name).1 == Torsion::Zero,
    ensures
        spec_contains(spec_replay_taus(rows, taus, page).0, name),
        spec_recent(spec_replay_taus(rows, taus, page).0, name).1 == Torsion::Zero,
    decreases taus.len(),
{
    if taus.len() > 0 {
        lemma_zero_terminal_taus(rows, taus.drop_last(), page, name);
        let prev = spec_replay_taus(rows, taus.drop_last(), page).0;
        lemma_replay_taus_wf(rows, taus.drop_last(), page);
        lemma_step_tau_zero_terminal(prev, taus.last(), page, name);
    }
}

proof fn lemma_step_tau_zero_terminal(rows: Seq<RowModel>, tm: Multiplication, page: i32, name: Seq<char>)
    requires
        rows_wf(rows),
        spec_contains(rows, name),
        spec_recent(rows, name).1 == Torsion::Zero,
    ensures
        spec_contains(spec_step_tau(rows, tm, page).0, name),
        spec_recent(spec_step_tau(rows, tm, page).0, name).1 == Torsion::Zero,
{
    let from = tm.from@;
    let to = tm.to@;
    let r = spec_step_tau(rows, tm, page).0;
    if r != rows {
        let rec_from = spec_recent(rows, from);
        let rec_to = spec_recent(rows, to);
        assert(row_index(rows, name) != row_index(rows, from)) by {
            if row_index(rows, name) == row_index(rows, from) {
                assert(spec_recent(rows, name) == spec_recent(rows, from));
            }
        }
        assert(row_index(rows, name) != row_index(rows, to)) by {
            if row_index(rows, name) == row_index(rows, to) {
                assert(spec_recent(rows, name) == spec_recent(rows, to));
            }
        }
        match rec_from.1 {
            Torsion::Val(fv) => {
                let s1 = Snapshot { page, torsion: Torsion::Zero, filtration: rec_to.2 };
                match rec_to.1 {
                    Torsion::Val(tv) => {
                        if fits_i32(fv + tv) {
                            let s2 = Snapshot { page: 10, torsion: Torsion::spec_of_value((fv + tv) as i32), filtration: rec_from.2 };
                            lemma_push_preserves_index(rows, to, s1, name);
                            lemma_push_preserves_index(rows, to, s1, from);
                            lemma_push_effect_recent_only(rows, to, s1, name);
                            lemma_push_effect_recent_only(spec_push(rows, to, s1), from, s2, name);
                        }
                    },
                    _ => {
                        let s2 = Snapshot { page: 10, torsion: Torsion::Free, filtration: rec_from.2 };
                        lemma_push_preserves_index(rows, to, s1, name);
                        lemma_push_preserves_index(rows, to, s1, from);
                        lemma_push_effect_recent_only(rows, to, s1, name);
                        lemma_push_effect_recent_only(spec_push(rows, to, s1), from, s2, name);
                    },
                }
            },
            _ => {},
        }
    }
}

proof fn lemma_step_tau_wf(rows: Seq<RowModel>, tm: Multiplication, page: i32)
    requires
        rows_wf(rows),
    ensures
        rows_wf(spec_step_tau(rows, tm, page).0),
{
    let from = tm.from@;
    let to = tm.to@;
    let r = spec_step_tau(rows, tm, page).0;
    if r != rows {
        let rec_from = spec_recent(rows, from);
        let rec_to = spec_recent(rows, to);
        match rec_from.1 {
            Torsion::Val(fv) => {
                let s1 = Snapshot { page, torsion: Torsion::Zero, filtration: rec_to.2 };
                match rec_to.1 {
                    Torsion::Val(tv) => {
                        if fits_i32(fv + tv) {
                            let s2 = Snapshot { page: 10, torsion: Torsion::spec_of_value((fv + tv) as i32), filtration: rec_from.2 };
                            lemma_push_wf(rows, to, s1);
                            lemma_push_preserves_index(rows, to, s1, from);
                            lemma_push_wf(spec_push(rows, to, s1), from, s2);
                        }
                    },
                    _ => {
                        let s2 = Snapshot { page: 10, torsion: Torsion::Free, filtration: rec_from.2 };
                        lemma_push_wf(rows, to, s1);
                        lemma_push_preserves_index(rows, to, s1, from);
                        lemma_push_wf(spec_push(rows, to, s1), from, s2);
                    },
                }
            },
            _ => {},
        }
    }
}

proof fn lemma_replay_taus_wf(rows: Seq<RowModel>, taus: Seq<Multiplication>, page: i32)
    requires
        rows_wf(rows),
    ensures
        rows_wf(spec_replay_taus(rows, taus, page).0),
    decreases taus.len(),
{
    if taus.len() > 0 {
        lemma_replay_taus_wf(rows, taus.drop_last(), page);
        lemma_step_tau_wf(spec_replay_taus(rows, taus.drop_last(), page).0, taus.last(), page);
    }
}

/// Replaying the same (category, window, page) twice over an unmodified
/// relation set yields identical final-page output: the replay is a
/// function of the store and parameters alone, with no hidden state.
pub proof fn lemma_replay_idempotent(
    r1: (Seq<RowModel>, Seq<DiagModel>),
    r2: (Seq<RowModel>, Seq<DiagModel>),
    data: SyntheticEHP,
    category: Category,
    bot_trunc: i32,
    top_trunc: i32,
    page: i32,
    limit_x: Option<i32>,
)
    requires
        r1 == spec_filtered(data, category, bot_trunc, top_trunc, page, limit_x),
        r2 == spec_filtered(data, category, bot_trunc, top_trunc, page, limit_x),
    ensures
        r1 == r2,
        spec_final_rows(r1.0) == spec_final_rows(r2.0),
{
}



/// Two pushes of well-formed snapshots keep the table well-formed.
proof fn lemma_double_push_wf(rows: Seq<RowModel>, from: Seq<char>, to: Seq<char>, s1: Snapshot, s2: Snapshot)
    requires
        rows_wf(rows),
        spec_contains(rows, from),
        spec_contains(rows, to),
        s1.torsion.wf(),
        s2.torsion.wf(),
    ensures
        rows_wf(spec_push(spec_push(rows, from, s1), to, s2)),
{
    lemma_push_wf(rows, from, s1);
    lemma_push_preserves_index(rows, from, s1, to);
    lemma_push_wf(spec_push(rows, from, s1), to, s2);
}



/// The differential list after each of `ds` is ordered-inserted in turn.
pub open spec fn spec_insert_all(s: Seq<Differential>, ds: Seq<Differential>) -> Seq<Differential>
    decreases ds.len(),
{
    if ds.len() == 0 {
        s
    } else {
        crate::types::spec_insert_diff(spec_insert_all(s, ds.drop_last()), ds.last())
    }
}

/// Ordered insertion commutes with taking values: the order reads only
/// the page and coefficient, which the view keeps.
pub proof fn lemma_insert_diff_bridge(s: Seq<Differential>, d: Differential)
    ensures
        crate::types::diffs_view(crate::types::spec_insert_diff(s, d))
            == crate::curtis::spec_insert_diff_model(crate::types::diffs_view(s), d@),
    decreases s.len(),
{
    let sv = crate::types::diffs_view(s);
    if s.len() == 0 {
        assert(crate::types::diffs_view(seq![d]) =~~= seq![d@]);
    } else if crate::types::diff_before(d, s[0]) {
        assert(crate::curtis::diff_model_before(d@, sv[0]));
        assert(crate::types::diffs_view(seq![d] + s) =~~= seq![d@] + sv);
    } else {
        assert(!crate::curtis::diff_model_before(d@, sv[0]));
        let rest = s.drop_first();
        lemma_insert_diff_bridge(rest, d);
        assert(crate::types::diffs_view(rest) =~= sv.drop_first());
        assert(crate::types::diffs_view(seq![s[0]] + crate::types::spec_insert_diff(rest, d))
            =~~= seq![sv[0]] + crate::curtis::spec_insert_diff_model(sv.drop_first(), d@));
    }
}

/// The ordered insert of each value of a batch, in order.
pub open spec fn spec_insert_all_models(s: Seq<DiffModel>, ds: Seq<DiffModel>) -> Seq<DiffModel>
    decreases ds.len(),
{
    if ds.len() == 0 {
        s
    } else {
        crate::curtis::spec_insert_diff_model(
            spec_insert_all_models(s, ds.drop_last()),
            ds.last(),
        )
    }
}

/// Batch insertion commutes with taking values.
pub proof fn lemma_insert_all_bridge(s: Seq<Differential>, ds: Seq<Differential>)
    ensures
        crate::types::diffs_view(spec_insert_all(s, ds)) == spec_insert_all_models(
            crate::types::diffs_view(s),
            crate::types::diffs_view(ds),
        ),
    decreases ds.len(),
{
    if ds.len() > 0 {
        lemma_insert_all_bridge(s, ds.drop_last());
        lemma_insert_diff_bridge(spec_insert_all(s, ds.drop_last()), ds.last());
        assert(crate::types::diffs_view(ds.drop_last()) =~= crate::types::diffs_view(
            ds,
        ).drop_last());
        assert(crate::types::diffs_view(ds).last() == ds.last()@);
    }
}

/// Any sequence of ordered inserts leaves a sorted differential list
/// sorted: the insertion order of the relation set is an invariant of
/// the whole run, not of single calls.
pub proof fn lemma_insert_all_sorted(s: Seq<Differential>, ds: Seq<Differential>)
    requires
        crate::types::diffs_sorted(s),
    ensures
        crate::types::diffs_sorted(spec_insert_all(s, ds)),
    decreases ds.len(),
{
    if ds.len() > 0 {
        lemma_insert_all_sorted(s, ds.drop_last());
        crate::types::lemma_insert_diff_sorted(spec_insert_all(s, ds.drop_last()), ds.last());
    }
}

/// Ordered-insert a batch of differentials into the store.
pub fn insert_diffs(data: &mut SyntheticEHP, ds: Vec<Differential>)
    ensures
        final(data).differentials@ == spec_insert_all(old(data).differentials@, ds@),
        old(data).diffs_ordered() ==> final(data).diffs_ordered(),
        final(data).generators == old(data).generators,
        final(data).multiplications == old(data).multiplications,
        final(data).find_map == old(data).find_map,
{
    let n = ds.len();
    let mut ds = ds;
    let ghost all = ds@;
    let mut i: usize = 0;
    while i < n
        invariant
            n == all.len(),
            ds@ == all,
            0 <= i <= n,
            data.differentials@ == spec_insert_all(old(data).differentials@, all.take(i as int)),
            old(data).diffs_ordered() ==> crate::types::diffs_sorted(data.differentials@),
            data.generators == old(data).generators,
            data.multiplications == old(data).multiplications,
            data.find_map == old(data).find_map,
        decreases n - i,
    {
        let dd = Differential {
            from: ds[i].from.clone(),
            to: ds[i].to.clone(),
            coeff: ds[i].coeff,
            d: ds[i].d,
            kind: ds[i].kind,
            synthetic: ds[i].synthetic,
            justification: match &ds[i].justification {
                Some(j) => Some(j.clone()),
                None => None,
            },
        };
        proof {
            assert(dd == all[i as int]);
        }
        data.insert_diff(dd);
        proof {
            let taken = all.take(i + 1);
            assert(taken.drop_last() =~= all.take(i as int));
            assert(taken.last() == all[i as int]);
            if old(data).diffs_ordered() {
                crate::types::lemma_insert_diff_sorted(
                    spec_insert_all(old(data).differentials@, all.take(i as int)),
                    all[i as int],
                );
            }
        }
        i = i + 1;
    }
    proof {
        assert(all.take(n as int) =~= all);
    }
}

/// Ordered-insert every recorded synthetic differential into the store.
pub fn add_diffs(data: &mut SyntheticEHP)
    ensures
        crate::types::diffs_view(final(data).differentials@) == spec_insert_all_models(
            crate::types::diffs_view(old(data).differentials@),
            crate::data::spec_diffs_table(),
        ),
        old(data).diffs_ordered() ==> final(data).diffs_ordered(),
        final(data).generators == old(data).generators,
        final(data).multiplications == old(data).multiplications,
        final(data).find_map == old(data).find_map,
{
    let ds = crate::data::get_diffs();
    let ghost dsv = ds@;
    insert_diffs(data, ds);
    proof {
        lemma_insert_all_bridge(old(data).differentials@, dsv);
    }
}

/// Ordered-insert every recorded stable differential into the store.
pub fn add_stable_diffs(data: &mut SyntheticEHP)
    ensures
        crate::types::diffs_view(final(data).differentials@) == spec_insert_all_models(
            crate::types::diffs_view(old(data).differentials@),
            crate::stable_data::spec_stable_diffs_table(),
        ),
        old(data).diffs_ordered() ==> final(data).diffs_ordered(),
        final(data).generators == old(data).generators,
        final(data).multiplications == old(data).multiplications,
        final(data).find_map == old(data).find_map,
{
    let ds = crate::stable_data::get_stable_diffs();
    let ghost dsv = ds@;
    insert_diffs(data, ds);
    proof {
        lemma_insert_all_bridge(old(data).differentials@, dsv);
    }
}

/// Install the recorded tau multiplications, replacing what was there.
pub fn add_tau_mults(data: &mut SyntheticEHP)
    ensures
        crate::types::mults_view(final(data).multiplications@)
            == crate::data::spec_tau_table(),
        final(data).generators == old(data).generators,
        final(data).differentials == old(data).differentials,
        final(data).find_map == old(data).find_map,
{
    data.multiplications = crate::data::get_tau_mults();
}

/// Install the recorded stable tau multiplications, replacing what was
/// there.
pub fn add_stable_tau_mults(data: &mut SyntheticEHP)
    ensures
        crate::types::mults_view(final(data).multiplications@)
            == crate::stable_data::spec_stable_tau_table(),
        final(data).generators == old(data).generators,
        final(data).differentials == old(data).differentials,
        final(data).find_map == old(data).find_map,
{
    data.multiplications = crate::stable_data::get_stable_tau_mults();
}

/// The induced name a generator ends with after the override table is
/// applied in order: the last name of the last entry that matches it,
/// else what it had.
pub open spec fn spec_induced_of(
    name: Seq<char>,
    prev: Seq<char>,
    table: Seq<(Seq<char>, Seq<(i32, Seq<char>)>)>,
) -> Seq<char>
    decreases table.len(),
{
    if table.len() == 0 {
        prev
    } else {
        let before = spec_induced_of(name, prev, table.drop_last());
        let e = table.last();
        if e.0 == name && e.1.len() > 0 {
            e.1.last().1
        } else {
            before
        }
    }
}

/// Overwrite the induced names of the generators named by the recorded
/// induced-name table: each generator ends with the name the table
/// assigns it, and nothing else about any generator changes.
pub fn add_induced_names(data: &mut SyntheticEHP)
    requires
        old(data).index_ok(),
        old(data).names_unique(),
    ensures
        final(data).generators@.len() == old(data).generators@.len(),
        forall|i: int|
            0 <= i < final(data).generators@.len() ==> {
                let g = #[trigger] final(data).generators@[i];
                let h = old(data).generators@[i];
                &&& g.name@ == h.name@
                &&& g.x == h.x
                &&& g.y == h.y
                &&& g.adams_filtration == h.adams_filtration
                &&& g.torsion == h.torsion
                &&& g.induced_name@ == spec_induced_of(
                    h.name@,
                    h.induced_name@,
                    crate::data::spec_induced_table(),
                )
            },
        final(data).differentials == old(data).differentials,
        final(data).multiplications == old(data).multiplications,
        final(data).find_map == old(data).find_map,
        final(data).index_ok(),
        final(data).names_unique(),
{
    let table = crate::data::get_induced_names();
    let ghost tbl = crate::data::spec_induced_table();
    proof {
        assert(crate::data::induced_view(table@) == tbl);
    }
    let n = table.len();
    let mut i: usize = 0;
    while i < n
        invariant
            n == table@.len(),
            0 <= i <= n,
            crate::data::induced_view(table@) == tbl,
            tbl.len() == n,
            data.index_ok(),
            data.names_unique(),
            data.generators@.len() == old(data).generators@.len(),
            forall|q: int|
                0 <= q < data.generators@.len() ==> {
                    let g = #[trigger] data.generators@[q];
                    let h = old(data).generators@[q];
                    &&& g.name@ == h.name@
                    &&& g.x == h.x
                    &&& g.y == h.y
                    &&& g.adams_filtration == h.adams_filtration
                    &&& g.torsion == h.torsion
                    &&& g.induced_name@ == spec_induced_of(h.name@, h.induced_name@, tbl.take(
                        i as int,
                    ))
                },
            data.differentials == old(data).differentials,
            data.multiplications == old(data).multiplications,
            data.find_map == old(data).find_map,
        decreases n - i,
    {
        let name = table[i].0.clone();
        proof {
            assert(crate::data::induced_view(table@)[i as int] == (
                table@[i as int].0@,
                table@[i as int].1@.map_values(|q: (i32, String)| (q.0, q.1@)),
            ));
            assert(name@ == tbl[i as int].0);
        }
        let m = table[i].1.len();
        let mut k: usize = 0;
        while k < m
            invariant
                n == table@.len(),
                0 <= i < n,
                m == table@[i as int].1@.len(),
                0 <= k <= m,
                crate::data::induced_view(table@) == tbl,
                tbl.len() == n,
                name@ == tbl[i as int].0,
                m == tbl[i as int].1.len(),
                data.index_ok(),
                data.names_unique(),
                data.generators@.len() == old(data).generators@.len(),
                forall|q: int|
                    0 <= q < data.generators@.len() ==> {
                        let g = #[trigger] data.generators@[q];
                        let h = old(data).generators@[q];
                        &&& g.name@ == h.name@
                        &&& g.x == h.x
                        &&& g.y == h.y
                        &&& g.adams_filtration == h.adams_filtration
                        &&& g.torsion == h.torsion
                        &&& g.induced_name@ == if h.name@ == tbl[i as int].0 && k > 0 {
                            tbl[i as int].1[k as int - 1].1
                        } else {
                            spec_induced_of(h.name@, h.induced_name@, tbl.take(i as int))
                        }
                    },
                data.differentials == old(data).differentials,
                data.multiplications == old(data).multiplications,
                data.find_map == old(data).find_map,
            decreases m - k,
        {
            let induced = table[i].1[k].1.clone();
            proof {
                assert(crate::data::induced_view(table@)[i as int] == (
                    table@[i as int].0@,
                    table@[i as int].1@.map_values(|q: (i32, String)| (q.0, q.1@)),
                ));
                assert(tbl[i as int].1[k as int] == (
                    table@[i as int].1@[k as int].0,
                    table@[i as int].1@[k as int].1@,
                ));
                assert(induced@ == tbl[i as int].1[k as int].1);
            }
            let ghost before = data.generators@;
            match data.find_mut(&name) {
                Some(g) => {
                    g.induced_name = induced;
                },
                None => {},
            }
            proof {
                assert forall|q: int| 0 <= q < data.generators@.len() implies {
                    let g = #[trigger] data.generators@[q];
                    let h = old(data).generators@[q];
                    &&& g.name@ == h.name@
                    &&& g.x == h.x
                    &&& g.y == h.y
                    &&& g.adams_filtration == h.adams_filtration
                    &&& g.torsion == h.torsion
                    &&& g.induced_name@ == if h.name@ == tbl[i as int].0 && k + 1 > 0 {
                        tbl[i as int].1[k as int].1
                    } else {
                        spec_induced_of(h.name@, h.induced_name@, tbl.take(i as int))
                    }
                } by {
                    if data.generators@[q] != before[q] {
                        assert(data.generators@[q].induced_name@ == tbl[i as int].1[k as int].1);
                        assert(before[q].name@ == name@);
                    } else {
                        if before[q].name@ == tbl[i as int].0 {
                            // the held name exists, so the lookup found it;
                            // by uniqueness the updated one is this very row
                            assert(data.generators@[q].name@ == name@);
                            assert(data.generators@[q] != before[q] || data.generators@[q]
                                == before[q]);
                            if data.generators@[q] == before[q] {
                                let want = tbl[i as int].1[k as int].1;
                                assert(data.generators@[q].induced_name@ == want) by {
                                    lemma_unique_update(
                                        before,
                                        data.generators@,
                                        q,
                                        name@,
                                        tbl[i as int].1[k as int].1,
                                    );
                                }
                            }
                        }
                    }
                }
            }
            k = k + 1;
        }
        proof {
            let t2 = tbl.take(i + 1);
            assert(t2.drop_last() =~= tbl.take(i as int));
            assert(t2.last() == tbl[i as int]);
            assert forall|q: int| 0 <= q < data.generators@.len() implies {
                let g = #[trigger] data.generators@[q];
                let h = old(data).generators@[q];
                g.induced_name@ == spec_induced_of(h.name@, h.induced_name@, t2)
            } by {
                let g = data.generators@[q];
                let h = old(data).generators@[q];
                if h.name@ == tbl[i as int].0 && m > 0 {
                    assert(g.induced_name@ == tbl[i as int].1[m - 1].1);
                    assert(tbl[i as int].1.last() == tbl[i as int].1[m - 1]);
                }
            }
        }
        i = i + 1;
    }
    proof {
        assert(tbl.take(n as int) =~= tbl);
    }
}

/// When exactly one row carries a name and the lookup updated some row of
/// that name, an unchanged row of that name cannot exist beside it unless
/// it is the updated one.
proof fn lemma_unique_update(
    before: Seq<Generator>,
    after: Seq<Generator>,
    q: int,
    name: Seq<char>,
    induced: Seq<char>,
)
    requires
        before.len() == after.len(),
        0 <= q < before.len(),
        before[q].name@ == name,
        after[q] == before[q],
        forall|a: int, b: int|
            0 <= a < b < before.len() ==> #[trigger] before[a].name@ != #[trigger] before[b].name@,
        exists|j: int|
            0 <= j < before.len() && before[j].name@ == name && after =~= before.update(
                j,
                after[j],
            ) && #[trigger] after[j].induced_name@ == induced,
    ensures
        after[q].induced_name@ == induced,
{
    let j = choose|j: int|
        0 <= j < before.len() && before[j].name@ == name && after =~= before.update(
            j,
            after[j],
        ) && #[trigger] after[j].induced_name@ == induced;
    if j != q {
        assert(before[j].name@ == before[q].name@);
        if j < q {
            assert(before[j].name@ != before[q].name@);
        } else {
            assert(before[q].name@ != before[j].name@);
        }
        assert(false);
    }
}

/// A generator that can still support a differential: its most recent
/// state at the end of a full synthetic replay of its stem.
#[derive(Clone, Debug)]
pub struct SourceRow {
    pub name: String,
    pub y: i32,
    pub page: i32,
    pub torsion: Torsion,
    pub filtration: i32,
}

/// The mathematical value of a `SourceRow`.
#[verifier::ext_equal]
pub struct SourceRowModel {
    pub name: Seq<char>,
    pub y: i32,
    pub page: i32,
    pub torsion: Torsion,
    pub filtration: i32,
}

impl View for SourceRow {
    type V = SourceRowModel;

    open spec fn view(&self) -> SourceRowModel {
        SourceRowModel {
            name: self.name@,
            y: self.y,
            page: self.page,
            torsion: self.torsion,
            filtration: self.filtration,
        }
    }
}

/// The rows of a replayed table that can still support a differential:
/// not killed, and inside the requested secondary-grading band.
pub open spec fn spec_sources(rows: Seq<RowModel>, bot: i32, top: i32) -> Seq<SourceRowModel>
    decreases rows.len(),
{
    if rows.len() == 0 {
        Seq::empty()
    } else {
        let rest = spec_sources(rows.drop_last(), bot, top);
        let r = rows.last();
        if r.hist[0].torsion != Torsion::Zero && bot <= r.y <= top {
            rest.push(
                SourceRowModel {
                    name: r.name,
                    y: r.y,
                    page: r.hist[0].page,
                    torsion: r.hist[0].torsion,
                    filtration: r.hist[0].filtration,
                },
            )
        } else {
            rest
        }
    }
}

/// All generators of a stem that can still support a differential after a
/// full synthetic replay, with the page, torsion and filtration of their
/// most recent state.
pub fn find_possible_sources_for_differentials_in_stem(
    data: &SyntheticEHP,
    stem: i32,
    bot_trunc: i32,
    top_trunc: i32,
) -> (r: Vec<SourceRow>)
    requires
        data.torsion_wf(),
    ensures
        r@.map_values(|s: SourceRow| s@) == spec_sources(
            spec_filtered(*data, Category::Synthetic, 0, 1000, 1000, Some(stem)).0,
            bot_trunc,
            top_trunc,
        ),
{
    let (pages, _diags) = get_filtered_data(data, Category::Synthetic, 0, 1000, 1000, Some(stem));
    let n = pages.generators.len();
    let mut out: Vec<SourceRow> = Vec::new();
    let mut i: usize = 0;
    while i < n
        invariant
            rows_wf(pages@),
            n == pages.generators@.len(),
            0 <= i <= n,
            out@.map_values(|s: SourceRow| s@) == spec_sources(
                pages@.take(i as int),
                bot_trunc,
                top_trunc,
            ),
        decreases n - i,
    {
        proof {
            assert(pages@[i as int] == pages.generators@[i as int]@);
            assert(pages@[i as int].hist.len() > 0);
        }
        let row = &pages.generators[i];
        let first = &row.hist[0];
        if !first.torsion.is_zero() && bot_trunc <= row.y && row.y <= top_trunc {
            out.push(
                SourceRow {
                    name: row.name.clone(),
                    y: row.y,
                    page: first.page,
                    torsion: first.torsion,
                    filtration: first.filtration,
                },
            );
        }
        proof {
            let taken = pages@.take(i + 1);
            assert(taken.drop_last() =~= pages@.take(i as int));
            assert(taken.last() == pages@[i as int]);
            assert(out@.map_values(|s: SourceRow| s@) =~= spec_sources(
                taken,
                bot_trunc,
                top_trunc,
            ));
        }
        i = i + 1;
    }
    proof {
        assert(pages@.take(n as int) =~= pages@);
    }
    out
}


} // verus!
