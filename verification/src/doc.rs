//! Structured documents (TOML settings, JSON configs) as the migrations
//! and patches read them: scalars, arrays and tables with their keys in
//! order.

use vstd::prelude::*;

verus! {

/// A document value.
pub enum Doc {
    Null,
    Str(String),
    /// Any other scalar — a boolean, number or date — as its literal text.
    Scalar(String),
    Array(Vec<Doc>),
    /// A table (object), its entries in order.
    Table(Vec<(String, Doc)>),
}

/// A document with its strings read as characters.
pub enum DocView {
    Null,
    Str(Seq<char>),
    Scalar(Seq<char>),
    Array(Seq<DocView>),
    Table(Seq<(Seq<char>, DocView)>),
}

/// The view of a document.
pub open spec fn doc_view(d: Doc) -> DocView
    decreases d,
{
    match d {
        Doc::Null => DocView::Null,
        Doc::Str(s) => DocView::Str(s@),
        Doc::Scalar(s) => DocView::Scalar(s@),
        Doc::Array(v) => DocView::Array(
            Seq::new(v.len() as nat, |i: int| if 0 <= i < v.len() { doc_view(v[i]) } else { DocView::Null }),
        ),
        Doc::Table(t) => DocView::Table(
            Seq::new(
                t.len() as nat,
                |i: int| if 0 <= i < t.len() { (t[i].0@, doc_view(t[i].1)) } else { (Seq::empty(), DocView::Null) },
            ),
        ),
    }
}

impl Doc {
    /// A deep copy.
    pub fn copy(&self) -> (r: Doc)
        ensures
            doc_view(r) == doc_view(*self),
        decreases self,
    {
        match self {
            Doc::Null => {
                assert(doc_view(Doc::Null) == DocView::Null);
                Doc::Null
            },
            Doc::Str(s) => {
                let c = s.clone();
                assert(doc_view(Doc::Str(c)) == DocView::Str(s@));
                Doc::Str(c)
            },
            Doc::Scalar(s) => {
                let c = s.clone();
                assert(doc_view(Doc::Scalar(c)) == DocView::Scalar(s@));
                Doc::Scalar(c)
            },
            Doc::Array(items) => {
                let mut out: Vec<Doc> = Vec::new();
                let mut i: usize = 0;
                while i < items.len()
                    invariant
                        *self == Doc::Array(*items),
                        i <= items.len(),
                        out.len() == i,
                        forall|j: int| 0 <= j < i ==> doc_view(#[trigger] out[j]) == doc_view(items[j]),
                    decreases items.len() - i,
                {
                    proof {
                        broadcast use vstd::std_specs::vec::axiom_vec_index_decreases;

                        assert(*self == Doc::Array(*items));
                        assert(decreases_to!(*self => (*self)->Array_0));
                        assert(decreases_to!(*items => items[i as int]));
                    }
                    let c = items[i].copy();
                    out.push(c);
                    i += 1;
                }
                proof {
                    let x = Doc::Array(out);
                    let sx = doc_view(x)->Array_0;
                    let ss = doc_view(*self)->Array_0;
                    assert(sx.len() == ss.len());
                    assert forall|k: int| 0 <= k < sx.len() implies sx[k] == ss[k] by {
                        assert(doc_view(out[k]) == doc_view(items[k]));
                    }
                    assert(sx =~= ss);
                }
                Doc::Array(out)
            },
            Doc::Table(entries) => {
                let mut out: Vec<(String, Doc)> = Vec::new();
                let mut i: usize = 0;
                while i < entries.len()
                    invariant
                        *self == Doc::Table(*entries),
                        i <= entries.len(),
                        out.len() == i,
                        forall|j: int| 0 <= j < i ==> (#[trigger] out[j]).0@ == entries[j].0@ && doc_view(out[j].1) == doc_view(entries[j].1),
                    decreases entries.len() - i,
                {
                    proof {
                        broadcast use vstd::std_specs::vec::axiom_vec_index_decreases;

                        assert(*self == Doc::Table(*entries));
                        assert(decreases_to!(*self => (*self)->Table_0));
                        assert(decreases_to!(*entries => entries[i as int]));
                        assert(decreases_to!(entries[i as int] => entries[i as int].1));
                    }
                    let c = entries[i].1.copy();
                    out.push((entries[i].0.clone(), c));
                    i += 1;
                }
                proof {
                    let x = Doc::Table(out);
                    let sx = doc_view(x)->Table_0;
                    let ss = doc_view(*self)->Table_0;
                    assert(sx.len() == ss.len());
                    assert forall|k: int| 0 <= k < sx.len() implies sx[k] == ss[k] by {
                        assert(out[k].0@ == entries[k].0@ && doc_view(out[k].1) == doc_view(entries[k].1));
                    }
                    assert(sx =~= ss);
                }
                Doc::Table(out)
            },
        }
    }
}

/// The view of table entries.
pub open spec fn tview(t: Seq<(String, Doc)>) -> Seq<(Seq<char>, DocView)> {
    Seq::new(t.len(), |i: int| (t[i].0@, doc_view(t[i].1)))
}

/// The view of array items.
pub open spec fn aview(a: Seq<Doc>) -> Seq<DocView> {
    Seq::new(a.len(), |i: int| doc_view(a[i]))
}

/// The first position of key `k` in `t`.
pub open spec fn first_index(t: Seq<(Seq<char>, DocView)>, k: Seq<char>) -> Option<int> {
    if exists|i: int| 0 <= i < t.len() && #[trigger] t[i].0 == k {
        Some(choose|i: int| 0 <= i < t.len() && #[trigger] t[i].0 == k && forall|j: int| 0 <= j < i ==> t[j].0 != k)
    } else {
        None
    }
}

/// The value of the first entry with key `k`.
pub open spec fn tlookup(t: Seq<(Seq<char>, DocView)>, k: Seq<char>) -> Option<DocView> {
    match first_index(t, k) {
        Some(i) => Some(t[i].1),
        None => None,
    }
}

/// `t` without its first entry with key `k`.
pub open spec fn tremove(t: Seq<(Seq<char>, DocView)>, k: Seq<char>) -> Seq<(Seq<char>, DocView)> {
    match first_index(t, k) {
        Some(i) => t.remove(i),
        None => t,
    }
}

/// `t` with the value of its first entry with key `k` replaced by `v`.
pub open spec fn tset(t: Seq<(Seq<char>, DocView)>, k: Seq<char>, v: DocView) -> Seq<(Seq<char>, DocView)> {
    match first_index(t, k) {
        Some(i) => t.update(i, (k, v)),
        None => t,
    }
}

/// `i` is the first position of key `k`.
pub proof fn lemma_first_index(t: Seq<(Seq<char>, DocView)>, k: Seq<char>, i: int)
    requires
        0 <= i < t.len(),
        t[i].0 == k,
        forall|j: int| 0 <= j < i ==> t[j].0 != k,
    ensures
        first_index(t, k) == Some(i),
{
    let c = choose|c: int| 0 <= c < t.len() && #[trigger] t[c].0 == k && forall|j: int| 0 <= j < c ==> t[j].0 != k;
    assert(0 <= c < t.len() && t[c].0 == k && forall|j: int| 0 <= j < c ==> t[j].0 != k);
    if c < i {
        assert(t[c].0 != k);
    } else if c > i {
        assert(t[i].0 != k);
    }
}

/// The first position of key `k` in `t`, if present.
pub fn find_first(t: &Vec<(String, Doc)>, k: &str) -> (r: Option<usize>)
    ensures
        match r {
            Some(i) => i < t@.len() && first_index(tview(t@), k@) == Some(i as int) && t@[i as int].0@ == k@,
            None => first_index(tview(t@), k@) is None,
        },
{
    let mut i: usize = 0;
    while i < t.len()
        invariant
            i <= t@.len(),
            forall|j: int| 0 <= j < i ==> tview(t@)[j].0 != k@,
        decreases t@.len() - i,
    {
        if crate::model::str_eq(t[i].0.as_str(), k) {
            proof {
                lemma_first_index(tview(t@), k@, i as int);
            }
            return Some(i);
        }
        i += 1;
    }
    None
}

/// The view of entries after removing the one at `i`.
pub proof fn lemma_tview_remove(t: Seq<(String, Doc)>, i: int)
    requires
        0 <= i < t.len(),
    ensures
        tview(t.remove(i)) == tview(t).remove(i),
{
    assert(tview(t.remove(i)) =~= tview(t).remove(i));
}

/// The view of entries after inserting `e` at `i`.
pub proof fn lemma_tview_insert(t: Seq<(String, Doc)>, i: int, e: (String, Doc))
    requires
        0 <= i <= t.len(),
    ensures
        tview(t.insert(i, e)) == tview(t).insert(i, (e.0@, doc_view(e.1))),
{
    assert(tview(t.insert(i, e)) =~= tview(t).insert(i, (e.0@, doc_view(e.1))));
}

/// The view of entries after replacing the one at `i` by `e`.
pub proof fn lemma_tview_update(t: Seq<(String, Doc)>, i: int, e: (String, Doc))
    requires
        0 <= i < t.len(),
    ensures
        tview(t.update(i, e)) == tview(t).update(i, (e.0@, doc_view(e.1))),
{
    assert(tview(t.update(i, e)) =~= tview(t).update(i, (e.0@, doc_view(e.1))));
}

/// The view of entries after appending `e`.
pub proof fn lemma_tview_push(t: Seq<(String, Doc)>, e: (String, Doc))
    ensures
        tview(t.push(e)) == tview(t).push((e.0@, doc_view(e.1))),
{
    assert(tview(t.push(e)) =~= tview(t).push((e.0@, doc_view(e.1))));
}

/// The view of a table document is the view of its entries.
pub proof fn lemma_table_view(t: Vec<(String, Doc)>)
    ensures
        doc_view(Doc::Table(t)) == DocView::Table(tview(t@)),
{
    let a = doc_view(Doc::Table(t))->Table_0;
    assert(a.len() == tview(t@).len());
    assert forall|k: int| 0 <= k < a.len() implies a[k] == tview(t@)[k] by {}
    assert(a =~= tview(t@));
}

/// The view of an array document is the view of its items.
pub proof fn lemma_array_view(a: Vec<Doc>)
    ensures
        doc_view(Doc::Array(a)) == DocView::Array(aview(a@)),
{
    let x = doc_view(Doc::Array(a))->Array_0;
    assert(x.len() == aview(a@).len());
    assert forall|k: int| 0 <= k < x.len() implies x[k] == aview(a@)[k] by {}
    assert(x =~= aview(a@));
}

// ── Merge patches ───────────────────────────────────────────────────

/// `base` patched by `patch` (RFC 7386): a table patch is merged entry by
/// entry into the base's entries (none when the base is not a table), and
/// anything else replaces the base outright.
pub open spec fn merged(base: DocView, patch: DocView) -> DocView
    decreases patch, 1nat,
{
    match patch {
        DocView::Table(p) => DocView::Table(patched_entries(
            match base {
                DocView::Table(b) => b,
                _ => Seq::empty(),
            },
            p,
        )),
        _ => patch,
    }
}

/// Table entries `b` patched by the entries `p`, in order: a null value
/// removes its key; any other value is merged into the key's value, or
/// added with the key when it is new.
pub open spec fn patched_entries(b: Seq<(Seq<char>, DocView)>, p: Seq<(Seq<char>, DocView)>) -> Seq<
    (Seq<char>, DocView),
>
    decreases p, 0nat,
{
    if p.len() == 0 {
        b
    } else {
        let (k, v) = p[0];
        let b1 = if v is Null {
            tremove(b, k)
        } else {
            match first_index(b, k) {
                Some(i) => b.update(i, (k, merged(b[i].1, v))),
                None => b.push((k, merged(DocView::Null, v))),
            }
        };
        patched_entries(b1, p.drop_first())
    }
}

/// Patch `base` with `patch` (RFC 7386): a table patch merges entry by
/// entry — a null removes its key (and is never stored), a key the patch
/// never names keeps its value; a base that is not a table counts as an
/// empty one — and anything else replaces the base.
pub fn merge(base: &mut Doc, patch: Doc)
    ensures
        doc_view(*final(base)) == merged(doc_view(*old(base)), doc_view(patch)),
    decreases patch, 1nat,
{
    let ghost pv = doc_view(patch);
    match patch {
        Doc::Table(p) => {
            proof {
                lemma_table_view(p);
            }
            match base {
                Doc::Table(entries) => {
                    proof {
                        lemma_table_view(*entries);
                        assert(decreases_to!(Doc::Table(p) => p));
                    }
                    patch_entries(entries, p);
                    proof {
                        lemma_table_view(*entries);
                    }
                },
                _ => {
                    let mut entries: Vec<(String, Doc)> = Vec::new();
                    proof {
                        lemma_table_view(entries);
                        assert(tview(entries@) =~= Seq::<(Seq<char>, DocView)>::empty());
                        assert(decreases_to!(Doc::Table(p) => p));
                    }
                    patch_entries(&mut entries, p);
                    proof {
                        lemma_table_view(entries);
                    }
                    *base = Doc::Table(entries);
                },
            }
        },
        other => {
            *base = other;
        },
    }
}

/// Patch the entries `b` with the entries `p`, in order.
#[verifier::spinoff_prover]
#[verifier::rlimit(40)]
fn patch_entries(b: &mut Vec<(String, Doc)>, p: Vec<(String, Doc)>)
    ensures
        tview(final(b)@) == patched_entries(tview(old(b)@), tview(p@)),
    decreases p, 0nat,
{
    let ghost all = p@;
    let total = p.len();
    let mut rest = p;
    let mut taken: usize = 0;
    assert(tview(all).subrange(0, all.len() as int) =~= tview(all));
    while rest.len() > 0
        invariant
            total == all.len(),
            all == p@,
            taken + rest@.len() == total,
            rest@ == all.subrange(taken as int, all.len() as int),
            patched_entries(tview(old(b)@), tview(all)) == patched_entries(
                tview(b@),
                tview(all).subrange(taken as int, all.len() as int),
            ),
        decreases rest@.len(),
    {
        let ghost bv = tview(b@);
        let ghost pv = tview(all).subrange(taken as int, all.len() as int);
        assert(pv.drop_first() =~= tview(all).subrange(taken + 1, all.len() as int));
        let (k, v) = rest.remove(0);
        assert(all[taken as int] == (k, v));
        assert(pv[0] == (k@, doc_view(v)));
        let is_null = match &v {
            Doc::Null => true,
            _ => false,
        };
        if is_null {
            match find_first(b, k.as_str()) {
                Some(i) => {
                    let ghost before = b@;
                    let _ = b.remove(i);
                    proof {
                        lemma_tview_remove(before, i as int);
                    }
                },
                None => {},
            }
        } else {
            match find_first(b, k.as_str()) {
                Some(i) => {
                    let ghost before = b@;
                    let (kk, old_v) = b.remove(i);
                    let mut x = old_v;
                    proof {
                        broadcast use vstd::std_specs::vec::axiom_vec_index_decreases;

                        assert(decreases_to!(p => p[taken as int]));
                        assert(decreases_to!(p[taken as int] => p[taken as int].1));
                    }
                    merge(&mut x, v);
                    let entry = (kk, x);
                    b.insert(i, entry);
                    proof {
                        assert(b@ =~= before.update(i as int, entry));
                        lemma_tview_update(before, i as int, entry);
                    }
                },
                None => {
                    let ghost before = b@;
                    let mut x = Doc::Null;
                    proof {
                        broadcast use vstd::std_specs::vec::axiom_vec_index_decreases;

                        assert(decreases_to!(p => p[taken as int]));
                        assert(decreases_to!(p[taken as int] => p[taken as int].1));
                    }
                    merge(&mut x, v);
                    let entry = (k, x);
                    b.push(entry);
                    proof {
                        lemma_tview_push(before, entry);
                    }
                },
            }
        }
        proof {
            let pk = pv[0].0;
            let pval = pv[0].1;
            let b1 = if pval is Null {
                tremove(bv, pk)
            } else {
                match first_index(bv, pk) {
                    Some(i) => bv.update(i, (pk, merged(bv[i].1, pval))),
                    None => bv.push((pk, merged(DocView::Null, pval))),
                }
            };
            assert(tview(b@) == b1);
            assert(patched_entries(bv, pv) == patched_entries(b1, pv.drop_first()));
        }
        taken += 1;
    }
}

/// What `first_index` says.
pub proof fn lemma_first_index_spec(t: Seq<(Seq<char>, DocView)>, k: Seq<char>)
    ensures
        match first_index(t, k) {
            Some(i) => 0 <= i < t.len() && t[i].0 == k && forall|j: int| 0 <= j < i ==> t[j].0 != k,
            None => forall|i: int| 0 <= i < t.len() ==> t[i].0 != k,
        },
{
    if exists|i: int| 0 <= i < t.len() && #[trigger] t[i].0 == k {
        let w = choose|i: int| 0 <= i < t.len() && #[trigger] t[i].0 == k;
        // The least such position exists.
        let mut m = w;
        let ghost mut c = w;
        assert(exists|i: int| 0 <= i < t.len() && t[i].0 == k && forall|j: int| 0 <= j < i ==> t[j].0 != k) by {
            lemma_least_position(t, k, w);
        }
    }
}

/// Below a position holding `k` there is a least one.
proof fn lemma_least_position(t: Seq<(Seq<char>, DocView)>, k: Seq<char>, w: int)
    requires
        0 <= w < t.len(),
        t[w].0 == k,
    ensures
        exists|i: int| 0 <= i < t.len() && t[i].0 == k && forall|j: int| 0 <= j < i ==> t[j].0 != k,
    decreases w,
{
    if exists|j: int| 0 <= j < w && t[j].0 == k {
        let j = choose|j: int| 0 <= j < w && t[j].0 == k;
        lemma_least_position(t, k, j);
    } else {
        assert(forall|j: int| 0 <= j < w ==> t[j].0 != k);
    }
}

/// Removing the entry at `i` leaves the lookup of another key alone.
proof fn lemma_lookup_after_remove(t: Seq<(Seq<char>, DocView)>, i: int, k2: Seq<char>)
    requires
        0 <= i < t.len(),
        t[i].0 != k2,
    ensures
        tlookup(t.remove(i), k2) == tlookup(t, k2),
{
    let t2 = t.remove(i);
    lemma_first_index_spec(t, k2);
    lemma_first_index_spec(t2, k2);
    match first_index(t, k2) {
        Some(j) => {
            let j2 = if j < i { j } else { j - 1 };
            assert(t2[j2] == t[j]);
            assert forall|y: int| 0 <= y < j2 implies t2[y].0 != k2 by {
                if y < i {
                    assert(t2[y] == t[y]);
                } else {
                    assert(t2[y] == t[y + 1]);
                }
            }
            lemma_first_index(t2, k2, j2);
        },
        None => {
            if first_index(t2, k2) is Some {
                let y = first_index(t2, k2)->0;
                if y < i {
                    assert(t2[y] == t[y]);
                } else {
                    assert(t2[y] == t[y + 1]);
                }
            }
        },
    }
}

/// Replacing the value at `i` (same key) leaves the lookup of another key
/// alone.
proof fn lemma_lookup_after_update(t: Seq<(Seq<char>, DocView)>, i: int, x: DocView, k2: Seq<char>)
    requires
        0 <= i < t.len(),
        t[i].0 != k2,
    ensures
        tlookup(t.update(i, (t[i].0, x)), k2) == tlookup(t, k2),
{
    let t2 = t.update(i, (t[i].0, x));
    lemma_first_index_spec(t, k2);
    lemma_first_index_spec(t2, k2);
    match first_index(t, k2) {
        Some(j) => {
            assert forall|y: int| 0 <= y < j implies t2[y].0 != k2 by {}
            lemma_first_index(t2, k2, j);
        },
        None => {
            if first_index(t2, k2) is Some {
                let y = first_index(t2, k2)->0;
                assert(t2[y].0 == t[y].0);
            }
        },
    }
}

/// Appending an entry with another key leaves the lookup alone.
proof fn lemma_lookup_after_push(t: Seq<(Seq<char>, DocView)>, e: (Seq<char>, DocView), k2: Seq<char>)
    requires
        e.0 != k2,
    ensures
        tlookup(t.push(e), k2) == tlookup(t, k2),
{
    let t2 = t.push(e);
    lemma_first_index_spec(t, k2);
    lemma_first_index_spec(t2, k2);
    match first_index(t, k2) {
        Some(j) => {
            assert forall|y: int| 0 <= y < j implies t2[y].0 != k2 by {
                assert(t2[y] == t[y]);
            }
            assert(t2[j] == t[j]);
            lemma_first_index(t2, k2, j);
        },
        None => {
            if first_index(t2, k2) is Some {
                let y = first_index(t2, k2)->0;
                if y < t.len() {
                    assert(t2[y] == t[y]);
                }
            }
        },
    }
}

/// The keys a patch names.
pub open spec fn patch_keys(p: Seq<(Seq<char>, DocView)>) -> Seq<Seq<char>> {
    p.map_values(|e: (Seq<char>, DocView)| e.0)
}

/// A key the patch never names keeps its stored value.
pub proof fn lemma_patch_keeps_unnamed_keys(b: Seq<(Seq<char>, DocView)>, p: Seq<(Seq<char>, DocView)>, k: Seq<char>)
    requires
        !patch_keys(p).contains(k),
    ensures
        tlookup(patched_entries(b, p), k) == tlookup(b, k),
    decreases p.len(),
{
    if p.len() > 0 {
        let (pk, v) = p[0];
        assert(patch_keys(p)[0] == pk);
        assert(pk != k);
        let b1 = if v is Null {
            tremove(b, pk)
        } else {
            match first_index(b, pk) {
                Some(i) => b.update(i, (pk, merged(b[i].1, v))),
                None => b.push((pk, merged(DocView::Null, v))),
            }
        };
        lemma_first_index_spec(b, pk);
        if v is Null {
            match first_index(b, pk) {
                Some(i) => lemma_lookup_after_remove(b, i, k),
                None => {},
            }
        } else {
            match first_index(b, pk) {
                Some(i) => {
                    assert(b[i].0 == pk);
                    lemma_lookup_after_update(b, i, merged(b[i].1, v), k);
                },
                None => lemma_lookup_after_push(b, (pk, merged(DocView::Null, v)), k),
            }
        }
        assert(tlookup(b1, k) == tlookup(b, k));
        assert forall|x: int| 0 <= x < patch_keys(p.drop_first()).len() implies patch_keys(p.drop_first())[x] != k by {
            assert(patch_keys(p.drop_first())[x] == patch_keys(p)[x + 1]);
        }
        lemma_patch_keeps_unnamed_keys(b1, p.drop_first(), k);
    }
}

/// A patch that is not a table replaces the document outright.
pub proof fn lemma_scalar_patch_replaces(base: DocView, patch: DocView)
    requires
        !(patch is Table),
    ensures
        merged(base, patch) == patch,
{
}

/// Replacing the value of key `k` keeps every key where it was.
pub proof fn lemma_tset_keys(t: Seq<(Seq<char>, DocView)>, k: Seq<char>, v: DocView, k2: Seq<char>)
    ensures
        first_index(tset(t, k, v), k2) == first_index(t, k2),
        tset(t, k, v).len() == t.len(),
{
    lemma_first_index_spec(t, k);
    let t2 = tset(t, k, v);
    assert forall|i: int| 0 <= i < t.len() implies #[trigger] t2[i].0 == t[i].0 by {}
    lemma_first_index_spec(t, k2);
    lemma_first_index_spec(t2, k2);
    match first_index(t, k2) {
        Some(j) => {
            assert forall|y: int| 0 <= y < j implies t2[y].0 != k2 by {}
            lemma_first_index(t2, k2, j);
        },
        None => {
            if first_index(t2, k2) is Some {
                let y = first_index(t2, k2)->0;
                assert(t2[y].0 == t[y].0);
            }
        },
    }
}

/// After replacing the value of a present key, looking it up gives the
/// new value.
pub proof fn lemma_tset_lookup(t: Seq<(Seq<char>, DocView)>, k: Seq<char>, v: DocView)
    requires
        tlookup(t, k) is Some,
    ensures
        tlookup(tset(t, k, v), k) == Some(v),
{
    lemma_tset_keys(t, k, v, k);
    lemma_first_index_spec(t, k);
}

/// Setting a key to the value it already has changes nothing.
pub proof fn lemma_tset_same(t: Seq<(Seq<char>, DocView)>, k: Seq<char>, v: DocView)
    requires
        tlookup(t, k) == Some(v),
    ensures
        tset(t, k, v) == t,
{
    lemma_first_index_spec(t, k);
    let i = first_index(t, k)->0;
    assert(t[i] == (k, v));
    assert(t.update(i, (k, v)) =~= t);
}

/// Whether `k` is the key of at most one entry.
pub open spec fn at_most_once(t: Seq<(Seq<char>, DocView)>, k: Seq<char>) -> bool {
    forall|i: int, j: int| 0 <= i < t.len() && 0 <= j < t.len() && #[trigger] t[i].0 == k && #[trigger] t[j].0 == k ==> i == j
}

/// Removing the only entry with key `k` leaves none.
pub proof fn lemma_tremove_gone(t: Seq<(Seq<char>, DocView)>, k: Seq<char>)
    requires
        at_most_once(t, k),
    ensures
        tlookup(tremove(t, k), k) is None,
        first_index(tremove(t, k), k) is None,
{
    lemma_first_index_spec(t, k);
    let t2 = tremove(t, k);
    lemma_first_index_spec(t2, k);
    match first_index(t, k) {
        Some(i) => {
            if first_index(t2, k) is Some {
                let y = first_index(t2, k)->0;
                if y < i {
                    assert(t2[y] == t[y]);
                } else {
                    assert(t2[y] == t[y + 1]);
                    assert(t[y + 1].0 == k && t[i].0 == k);
                }
            }
        },
        None => {},
    }
}

/// With every key distinct, a patch that sets `k` to null removes it.
pub proof fn lemma_null_patch_removes(b: Seq<(Seq<char>, DocView)>, k: Seq<char>)
    requires
        at_most_once(b, k),
    ensures
        tlookup(patched_entries(b, seq![(k, DocView::Null)]), k) is None,
{
    let p = seq![(k, DocView::Null)];
    assert(p.drop_first() =~= Seq::<(Seq<char>, DocView)>::empty());
    assert(patched_entries(b, p) == patched_entries(tremove(b, k), p.drop_first()));
    lemma_tremove_gone(b, k);
}

} // verus!
