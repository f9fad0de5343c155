use vstd::prelude::*;

use crate::types::Torsion;
use crate::MAX_STEM;

verus! {

/// The expected differentials of one bidegree: for `(stem, af)`, the
/// sorted list of pages on which a differential is expected, with the
/// torsion-free state standing for "no differential ever".
#[derive(Clone, Debug)]
pub struct RefEntry {
    pub stem: i32,
    pub af: i32,
    pub pages: Vec<Torsion>,
}

/// The mathematical value of a `RefEntry`.
#[verifier::ext_equal]
pub struct RefEntryModel {
    pub stem: i32,
    pub af: i32,
    pub pages: Seq<Torsion>,
}

impl View for RefEntry {
    type V = RefEntryModel;

    open spec fn view(&self) -> RefEntryModel {
        RefEntryModel { stem: self.stem, af: self.af, pages: self.pages@ }
    }
}

/// The values of a reference table.
pub open spec fn refs_view(v: Seq<RefEntry>) -> Seq<RefEntryModel> {
    v.map_values(|e: RefEntry| e@)
}

/// Index of the first entry for a bidegree, or -1.
pub open spec fn ref_index(table: Seq<RefEntryModel>, stem: i32, af: i32) -> int
    decreases table.len(),
{
    if table.len() == 0 {
        -1
    } else if table[0].stem == stem && table[0].af == af {
        0
    } else {
        let r = ref_index(table.drop_first(), stem, af);
        if r < 0 {
            -1
        } else {
            r + 1
        }
    }
}

/// What the first-entry index means position by position.
pub proof fn lemma_ref_index(table: Seq<RefEntryModel>, stem: i32, af: i32)
    ensures
        ref_index(table, stem, af) == -1 ==> forall|k: int|
            0 <= k < table.len() ==> !((#[trigger] table[k]).stem == stem && table[k].af == af),
        ref_index(table, stem, af) >= 0 ==> {
            let r = ref_index(table, stem, af);
            &&& r < table.len()
            &&& table[r].stem == stem
            &&& table[r].af == af
            &&& forall|k: int|
                0 <= k < r ==> !((#[trigger] table[k]).stem == stem && table[k].af == af)
        },
    decreases table.len(),
{
    if table.len() > 0 && !(table[0].stem == stem && table[0].af == af) {
        let rest = table.drop_first();
        lemma_ref_index(rest, stem, af);
        let r = ref_index(table, stem, af);
        if r == -1 {
            assert forall|k: int| 0 <= k < table.len() implies !((#[trigger] table[k]).stem
                == stem && table[k].af == af) by {
                if k > 0 {
                    assert(rest[k - 1] == table[k]);
                }
            }
        } else {
            assert(table[r] == rest[r - 1]);
            assert forall|k: int| 0 <= k < r implies !((#[trigger] table[k]).stem == stem
                && table[k].af == af) by {
                if k > 0 {
                    assert(rest[k - 1] == table[k]);
                }
            }
        }
    }
}

/// A reference row that cannot be used: its position in the row list.
#[derive(Clone, Copy, Debug, PartialEq, Eq, Structural)]
pub struct RefError {
    pub row: usize,
}

/// The sentinel page value that encodes "no differential ever".
pub const NEVER_PAGE: i32 = 9000;

/// Strict order on torsion values as expected-page entries: the
/// torsion-free state first, then by value.
pub open spec fn tor_lt(a: Torsion, b: Torsion) -> bool {
    match (a, b) {
        (Torsion::Free, Torsion::Free) => false,
        (Torsion::Free, _) => true,
        (_, Torsion::Free) => false,
        _ => tor_val(a) < tor_val(b),
    }
}

/// The integer a non-free torsion stands for.
pub open spec fn tor_val(t: Torsion) -> int {
    match t {
        Torsion::Free => 0,
        Torsion::Zero => 0,
        Torsion::Val(k) => k as int,
    }
}

/// Sortedness of a page list under `tor_lt`.
pub open spec fn tors_sorted(s: Seq<Torsion>) -> bool {
    forall|i: int, j: int| 0 <= i < j < s.len() ==> !tor_lt(#[trigger] s[j], #[trigger] s[i])
}

/// Exec comparison mirroring `tor_lt`.
pub fn tor_less(a: Torsion, b: Torsion) -> (r: bool)
    ensures
        r == tor_lt(a, b),
{
    match (a, b) {
        (Torsion::Free, Torsion::Free) => false,
        (Torsion::Free, _) => true,
        (_, Torsion::Free) => false,
        (x, y) => {
            let xv: i32 = match x {
                Torsion::Val(k) => k,
                _ => 0,
            };
            let yv: i32 = match y {
                Torsion::Val(k) => k,
                _ => 0,
            };
            xv < yv
        },
    }
}

/// Stable ordered insert of a page entry: after everything it is not
/// strictly below.
pub open spec fn spec_insert_tor(s: Seq<Torsion>, t: Torsion) -> Seq<Torsion>
    decreases s.len(),
{
    if s.len() == 0 {
        seq![t]
    } else if tor_lt(t, s[0]) {
        seq![t] + s
    } else {
        seq![s[0]] + spec_insert_tor(s.drop_first(), t)
    }
}

/// The stable sort of a page list.
pub open spec fn spec_sort_tors(s: Seq<Torsion>) -> Seq<Torsion>
    decreases s.len(),
{
    if s.len() == 0 {
        Seq::empty()
    } else {
        spec_insert_tor(spec_sort_tors(s.drop_last()), s.last())
    }
}

/// A left-to-right scan finds the position the stable insert uses.
proof fn lemma_insert_tor_at_first(s: Seq<Torsion>, t: Torsion, pos: int)
    requires
        0 <= pos <= s.len(),
        forall|k: int| 0 <= k < pos ==> !tor_lt(t, #[trigger] s[k]),
        pos < s.len() ==> tor_lt(t, s[pos]),
    ensures
        spec_insert_tor(s, t) == s.insert(pos, t),
    decreases s.len(),
{
    if s.len() == 0 {
        assert(spec_insert_tor(s, t) =~= s.insert(0, t));
    } else if tor_lt(t, s[0]) {
        assert(pos == 0);
        assert(seq![t] + s =~= s.insert(0, t));
    } else {
        let rest = s.drop_first();
        assert(pos >= 1);
        assert(forall|k: int| 0 <= k < pos - 1 ==> rest[k] == s[k + 1]);
        assert(pos - 1 < rest.len() ==> tor_lt(t, rest[pos - 1]));
        lemma_insert_tor_at_first(rest, t, pos - 1);
        assert(seq![s[0]] + rest.insert(pos - 1, t) =~= s.insert(pos, t));
    }
}

/// Stable insertion sort of a page list.
pub fn sort_tors(v: Vec<Torsion>) -> (r: Vec<Torsion>)
    ensures
        r@ == spec_sort_tors(v@),
        tors_sorted(r@),
        r@.to_multiset() == v@.to_multiset(),
{
    let mut src = v;
    let mut out: Vec<Torsion> = Vec::new();
    let ghost orig = src@;
    let total = src.len();
    proof {
        orig.to_multiset_ensures();
        out@.to_multiset_ensures();
        assert(out@.to_multiset() =~= orig.take(0).to_multiset()) by {
            assert(orig.take(0) =~= out@);
        }
    }
    let mut taken: usize = 0;
    while src.len() > 0
        invariant
            taken + src@.len() == orig.len(),
            orig.len() <= usize::MAX,
            src@ == orig.skip(taken as int),
            tors_sorted(out@),
            out@ == spec_sort_tors(orig.take(taken as int)),
            out@.to_multiset() == orig.take(taken as int).to_multiset(),
        decreases src@.len(),
    {
        let t = src.remove(0);
        let n = out.len();
        let mut pos: usize = 0;
        while pos < n
            invariant_except_break
                n == out@.len(),
                0 <= pos <= n,
                forall|k: int| 0 <= k < pos ==> !tor_lt(t, #[trigger] out@[k]),
            ensures
                0 <= pos <= n,
                n == out@.len(),
                forall|k: int| 0 <= k < pos ==> !tor_lt(t, #[trigger] out@[k]),
                pos < n ==> tor_lt(t, out@[pos as int]),
            decreases n - pos,
        {
            if tor_less(t, out[pos]) {
                break;
            }
            pos = pos + 1;
        }
        let ghost out_before = out@;
        proof {
            lemma_insert_tor_at_first(out_before, t, pos as int);
        }
        out.insert(pos, t);
        proof {
            assert(tors_sorted(out@)) by {
                assert forall|i: int, j: int| 0 <= i < j < out@.len() implies !tor_lt(
                    out@[j],
                    out@[i],
                ) by {
                    if j < pos {
                    } else if i < pos && j == pos {
                        assert(out@[j] == t && out@[i] == out_before[i]);
                    } else if i < pos {
                        assert(out@[j] == out_before[j - 1]);
                    } else if i == pos {
                        assert(out@[i] == t && out@[j] == out_before[j - 1]);
                        assert(!tor_lt(out_before[j - 1], t)) by {
                            if tor_lt(out_before[j - 1], t) {
                                assert(tor_lt(t, out_before[pos as int]));
                                assert(!tor_lt(out_before[j - 1], out_before[pos as int]));
                            }
                        }
                    } else {
                        assert(out@[i] == out_before[i - 1] && out@[j] == out_before[j - 1]);
                    }
                }
            }
            let t2 = orig.take(taken + 1);
            assert(t2.drop_last() =~= orig.take(taken as int));
            assert(t2.last() == orig[taken as int]);
            assert(orig[taken as int] == t);
            out_before.to_multiset_ensures();
            out@.to_multiset_ensures();
            t2.to_multiset_ensures();
            orig.take(taken as int).to_multiset_ensures();
            assert(out@ =~= out_before.insert(pos as int, t));
            vstd::seq_lib::to_multiset_insert(out_before, pos as int, t);
            assert(t2 =~= orig.take(taken as int).push(t));
            assert(t2.to_multiset() =~= orig.take(taken as int).to_multiset().insert(t));
            assert(src@ =~= orig.skip(taken + 1));
        }
        taken = taken + 1;
    }
    proof {
        assert(orig.take(taken as int) =~= orig);
    }
    out
}

/// Group the raw reference rows into keyed page lists.  Each raw row is
/// the already-split numeric fields of one table row, with `None` for a
/// field that was empty or not a number.  The even format reads
/// `(stem, af, .., page)`, the odd one `(.., s, t, .., weight, page)`;
/// the sentinel page becomes the torsion-free state, every other page is
/// shifted to the engine's zero-based numbering, and each page list comes
/// out sorted.  A row that lacks a needed field is rejected with its
/// index.
pub fn read_rp_csv(bot_trunc: i32, top_trunc: i32, rows: &Vec<Vec<Option<i32>>>) -> (r: Result<
    Vec<RefEntry>,
    RefError,
>)
    ensures
        match r {
            Ok(table) => {
                &&& forall|i: int, j: int|
                    0 <= i < j < table@.len() ==> !((#[trigger] table@[i]).stem
                        == (#[trigger] table@[j]).stem && table@[i].af == table@[j].af)
                &&& forall|i: int| 0 <= i < table@.len() ==> (#[trigger] table@[i]).stem
                    <= MAX_STEM
                &&& forall|i: int| 0 <= i < table@.len() ==> tors_sorted(
                    (#[trigger] table@[i]).pages@,
                )
            },
            Err(e) => e.row < rows@.len(),
        },
{
    let even = top_trunc % 2 == 0;
    let mut table: Vec<RefEntry> = Vec::new();
    let n = rows.len();
    let mut i: usize = 0;
    while i < n
        invariant
            n == rows@.len(),
            0 <= i <= n,
            forall|a: int, b: int|
                0 <= a < b < table@.len() ==> !((#[trigger] table@[a]).stem
                    == (#[trigger] table@[b]).stem && table@[a].af == table@[b].af),
            forall|a: int| 0 <= a < table@.len() ==> (#[trigger] table@[a]).stem <= MAX_STEM,
        decreases n - i,
    {
        let row = &rows[i];
        let m = row.len();
        let (stem_w, af_w, dr, weight_empty): (i64, i64, i32, bool) = if even {
            if m < 3 {
                return Err(RefError { row: i });
            }
            let s = match row[0] {
                Some(v) => v,
                None => {
                    return Err(RefError { row: i });
                },
            };
            let a = match row[1] {
                Some(v) => v,
                None => {
                    return Err(RefError { row: i });
                },
            };
            let d = match row[m - 1] {
                Some(v) => v,
                None => {
                    return Err(RefError { row: i });
                },
            };
            let shift: i64 = if bot_trunc == 1 && top_trunc == 2 {
                1
            } else {
                0
            };
            (s as i64 + shift, a as i64 + 1, d, false)
        } else {
            if m < 4 {
                return Err(RefError { row: i });
            }
            let s = match row[1] {
                Some(v) => v,
                None => {
                    return Err(RefError { row: i });
                },
            };
            let t = match row[2] {
                Some(v) => v,
                None => {
                    return Err(RefError { row: i });
                },
            };
            let d = match row[m - 1] {
                Some(v) => v,
                None => {
                    return Err(RefError { row: i });
                },
            };
            let w_empty = match row[m - 2] {
                Some(_) => false,
                None => true,
            };
            (t as i64 - s as i64, s as i64 + 1, d, w_empty)
        };
        if stem_w <= MAX_STEM as i64 {
            if stem_w < i32::MIN as i64 || af_w > i32::MAX as i64 || af_w < i32::MIN as i64 {
                return Err(RefError { row: i });
            }
            let stem: i32 = stem_w as i32;
            let af: i32 = af_w as i32;
            let entry: Option<Torsion> = if dr == NEVER_PAGE || (!even && weight_empty) {
                Some(Torsion::Free)
            } else if dr < NEVER_PAGE {
                if dr == i32::MIN {
                    return Err(RefError { row: i });
                }
                Some(Torsion::of_value(dr - 1))
            } else {
                None
            };
            match entry {
                Some(tor) => {
                    let tn = table.len();
                    let mut k: usize = 0;
                    let mut found = false;
                    while k < tn
                        invariant_except_break
                            tn == table@.len(),
                            0 <= k <= tn,
                            !found,
                            forall|q: int|
                                0 <= q < k ==> !((#[trigger] table@[q]).stem == stem
                                    && table@[q].af == af),
                        ensures
                            0 <= k <= tn,
                            found ==> k < tn && table@[k as int].stem == stem
                                && table@[k as int].af == af,
                            !found ==> forall|q: int|
                                0 <= q < tn ==> !((#[trigger] table@[q]).stem == stem
                                    && table@[q].af == af),
                        decreases tn - k,
                    {
                        if table[k].stem == stem && table[k].af == af {
                            found = true;
                            break;
                        }
                        k = k + 1;
                    }
                    if found {
                        let ghost tbefore = table@;
                        table[k].pages.push(tor);
                        proof {
                            assert forall|a: int, b: int|
                                0 <= a < b < table@.len() implies !((#[trigger] table@[a]).stem
                                == (#[trigger] table@[b]).stem && table@[a].af
                                == table@[b].af) by {
                                assert(table@[a].stem == tbefore[a].stem && table@[a].af
                                    == tbefore[a].af);
                                assert(table@[b].stem == tbefore[b].stem && table@[b].af
                                    == tbefore[b].af);
                            }
                            assert forall|a: int| 0 <= a < table@.len() implies (
                            #[trigger] table@[a]).stem <= MAX_STEM by {
                                assert(table@[a].stem == tbefore[a].stem);
                            }
                        }
                    } else {
                        let mut pages: Vec<Torsion> = Vec::new();
                        pages.push(tor);
                        table.push(RefEntry { stem, af, pages });
                    }
                },
                None => {},
            }
        }
        i = i + 1;
    }
    // bring every page list into its sorted order
    let tn = table.len();
    let mut out: Vec<RefEntry> = Vec::new();
    let mut k: usize = 0;
    while k < tn
        invariant
            tn == table@.len(),
            0 <= k <= tn,
            out@.len() == k,
            forall|a: int| 0 <= a < k ==> (#[trigger] out@[a]).stem == table@[a].stem
                && out@[a].af == table@[a].af,
            forall|a: int, b: int|
                0 <= a < b < table@.len() ==> !((#[trigger] table@[a]).stem
                    == (#[trigger] table@[b]).stem && table@[a].af == table@[b].af),
            forall|a: int| 0 <= a < table@.len() ==> (#[trigger] table@[a]).stem <= MAX_STEM,
            forall|a: int| 0 <= a < k ==> tors_sorted((#[trigger] out@[a]).pages@),
        decreases tn - k,
    {
        let e = &table[k];
        let mut pages: Vec<Torsion> = Vec::new();
        let pn = e.pages.len();
        let mut q: usize = 0;
        while q < pn
            invariant
                pn == e.pages@.len(),
                0 <= q <= pn,
                pages@ == e.pages@.take(q as int),
            decreases pn - q,
        {
            pages.push(e.pages[q]);
            proof {
                assert(pages@ =~= e.pages@.take(q + 1));
            }
            q = q + 1;
        }
        let sorted = sort_tors(pages);
        out.push(RefEntry { stem: e.stem, af: e.af, pages: sorted });
        k = k + 1;
    }
    proof {
        assert forall|a: int, b: int| 0 <= a < b < out@.len() implies !((#[trigger] out@[a]).stem
            == (#[trigger] out@[b]).stem && out@[a].af == out@[b].af) by {
            assert(out@[a].stem == table@[a].stem && out@[b].stem == table@[b].stem);
        }
    }
    Ok(out)
}

} // verus!
