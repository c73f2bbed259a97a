//! The catalog: a mapping from a desktop-entry file's base name to its
//! entry, kept as a sequence of rows with pairwise distinct keys.  A later
//! insert for a key already present replaces that row in place, so the fold
//! order of the per-worker results fixes the listing order, and user-row
//! inserts applied last override system rows with the same key.

use vstd::prelude::*;
use crate::entry::{Entry, SpecEntry};
use crate::text::{append_bytes, bytes_eq, clone_bytes};

verus! {

/// Mathematical image of a [`Row`].
pub ghost struct SpecRow {
    pub key: Seq<u8>,
    pub entry: SpecEntry,
}

/// One parse result: the catalog key (the file's base name) and its entry.
pub struct Row {
    pub key: Vec<u8>,
    pub entry: Entry,
}

impl View for Row {
    type V = SpecRow;

    open spec fn view(&self) -> SpecRow {
        SpecRow { key: self.key@, entry: self.entry@ }
    }
}

impl DeepView for Row {
    type V = SpecRow;

    open spec fn deep_view(&self) -> SpecRow {
        self@
    }
}

impl Clone for Row {
    /// The clone carries the same key and entry.
    fn clone(&self) -> (r: Self)
        ensures
            r@ == self@,
    {
        Row { key: clone_bytes(&self.key), entry: self.entry.clone() }
    }
}

/// Index of the first row of `rs` whose key is `k`, or `rs.len()` when no
/// row has it.
pub open spec fn find_key(rs: Seq<SpecRow>, k: Seq<u8>) -> int
    decreases rs.len(),
{
    if rs.len() == 0 {
        0
    } else if rs[0].key == k {
        0
    } else {
        1 + find_key(rs.drop_first(), k)
    }
}

/// `find_key` lands on the first row with the key: every row before it has
/// another key, and the row at it (when in range) has `k`.
pub proof fn lemma_find_key(rs: Seq<SpecRow>, k: Seq<u8>)
    ensures
        0 <= find_key(rs, k) <= rs.len(),
        forall|j: int| 0 <= j < find_key(rs, k) ==> rs[j].key != k,
        find_key(rs, k) < rs.len() ==> rs[find_key(rs, k)].key == k,
    decreases rs.len(),
{
    if rs.len() == 0 {
    } else if rs[0].key == k {
    } else {
        lemma_find_key(rs.drop_first(), k);
        assert forall|j: int| 0 <= j < find_key(rs, k) implies rs[j].key != k by {
            if j > 0 {
                assert(rs.drop_first()[j - 1].key != k);
            }
        }
        if find_key(rs, k) < rs.len() {
            assert(rs.drop_first()[find_key(rs, k) - 1].key == k);
        }
    }
}

/// An index with no row keyed `k` before it, and key `k` at it unless it is
/// the length, is exactly `find_key`.
pub proof fn lemma_find_key_is(rs: Seq<SpecRow>, k: Seq<u8>, i: int)
    requires
        0 <= i <= rs.len(),
        forall|j: int| 0 <= j < i ==> rs[j].key != k,
        i < rs.len() ==> rs[i].key == k,
    ensures
        find_key(rs, k) == i,
    decreases rs.len(),
{
    if rs.len() == 0 {
    } else if rs[0].key == k {
        assert(i == 0);
    } else {
        assert(i >= 1);
        assert forall|j: int| 0 <= j < i - 1 implies rs.drop_first()[j].key != k by {
            assert(rs[j + 1].key != k);
        }
        lemma_find_key_is(rs.drop_first(), k, i - 1);
    }
}

/// The keys of `rs` are pairwise distinct.
pub open spec fn unique_keys(rs: Seq<SpecRow>) -> bool {
    forall|i: int, j: int| 0 <= i < j < rs.len() ==> rs[i].key != rs[j].key
}

/// Insertion with mapping semantics: the row with the same key is replaced
/// in place; a fresh key is appended.
pub open spec fn spec_insert(rs: Seq<SpecRow>, r: SpecRow) -> Seq<SpecRow> {
    let i = find_key(rs, r.key);
    if 0 <= i < rs.len() {
        rs.update(i, r)
    } else {
        rs.push(r)
    }
}

/// All rows of `xs` inserted into `rs`, in order.
pub open spec fn spec_insert_all(rs: Seq<SpecRow>, xs: Seq<SpecRow>) -> Seq<SpecRow>
    decreases xs.len(),
{
    if xs.len() == 0 {
        rs
    } else {
        spec_insert_all(spec_insert(rs, xs[0]), xs.drop_first())
    }
}

/// Inserting a concatenation inserts the first part, then the second.
pub proof fn lemma_insert_all_concat(rs: Seq<SpecRow>, a: Seq<SpecRow>, b: Seq<SpecRow>)
    ensures
        spec_insert_all(rs, a + b) == spec_insert_all(spec_insert_all(rs, a), b),
    decreases a.len(),
{
    if a.len() == 0 {
        assert(a + b =~= b);
    } else {
        assert((a + b)[0] == a[0]);
        assert((a + b).drop_first() =~= a.drop_first() + b);
        lemma_insert_all_concat(spec_insert(rs, a[0]), a.drop_first(), b);
    }
}

/// Inserting a single row.
pub proof fn lemma_insert_all_single(rs: Seq<SpecRow>, r: SpecRow)
    ensures
        spec_insert_all(rs, seq![r]) == spec_insert(rs, r),
{
    assert(seq![r][0] == r);
    assert(seq![r].drop_first() =~= Seq::<SpecRow>::empty());
    assert(spec_insert_all(spec_insert(rs, r), Seq::<SpecRow>::empty()) == spec_insert(rs, r));
}

/// `spec_insert` keeps keys pairwise distinct.
pub proof fn lemma_insert_unique(rs: Seq<SpecRow>, r: SpecRow)
    requires
        unique_keys(rs),
    ensures
        unique_keys(spec_insert(rs, r)),
{
    lemma_find_key(rs, r.key);
    let i = find_key(rs, r.key);
    let out = spec_insert(rs, r);
    if i < rs.len() {
        assert forall|m: int, n: int| 0 <= m < n < out.len() implies out[m].key != out[n].key by {
            assert(rs[m].key != rs[n].key);
            assert(out[m].key == if m == i { r.key } else { rs[m].key });
            assert(out[n].key == if n == i { r.key } else { rs[n].key });
        }
    } else {
        assert forall|m: int, n: int| 0 <= m < n < out.len() implies out[m].key != out[n].key by {
            if n < rs.len() {
                assert(rs[m].key != rs[n].key);
            } else {
                assert(rs[m].key != r.key);
            }
        }
    }
}

/// `spec_insert_all` keeps keys pairwise distinct.
pub proof fn lemma_insert_all_unique(rs: Seq<SpecRow>, xs: Seq<SpecRow>)
    requires
        unique_keys(rs),
    ensures
        unique_keys(spec_insert_all(rs, xs)),
    decreases xs.len(),
{
    if xs.len() > 0 {
        lemma_insert_unique(rs, xs[0]);
        lemma_insert_all_unique(spec_insert(rs, xs[0]), xs.drop_first());
    }
}

/// The catalog of discovered applications, keyed by file base name.
pub struct Catalog {
    rows: Vec<Row>,
}

impl View for Catalog {
    type V = Seq<SpecRow>;

    closed spec fn view(&self) -> Seq<SpecRow> {
        self.rows.deep_view()
    }
}

impl Catalog {
    /// Keys are pairwise distinct; every constructor establishes this and
    /// every method preserves it.
    pub open spec fn wf(&self) -> bool {
        unique_keys(self@)
    }

    /// The empty catalog.
    pub fn new() -> (c: Catalog)
        ensures
            c@ == Seq::<SpecRow>::empty(),
            c.wf(),
    {
        let c = Catalog { rows: Vec::new() };
        proof {
            assert(c@ =~= Seq::<SpecRow>::empty());
        }
        c
    }

    /// Number of rows.
    pub fn len(&self) -> (n: usize)
        ensures
            n == self@.len(),
    {
        self.rows.len()
    }

    /// Index of the first row with this key, or the length when absent.
    fn position_of(&self, key: &Vec<u8>) -> (r: usize)
        ensures
            r == find_key(self@, key@),
    {
        let mut i: usize = 0;
        while i < self.rows.len()
            invariant
                0 <= i <= self@.len(),
                self@.len() == self.rows@.len(),
                forall|j: int| 0 <= j < i ==> self@[j].key != key@,
            decreases self@.len() - i,
        {
            if bytes_eq(&self.rows[i].key, key) {
                proof {
                    assert(self@[i as int].key == self.rows@[i as int].key@);
                    lemma_find_key_is(self@, key@, i as int);
                }
                return i;
            }
            proof {
                assert(self@[i as int].key == self.rows@[i as int].key@);
            }
            i = i + 1;
        }
        proof {
            lemma_find_key_is(self@, key@, self@.len() as int);
        }
        i
    }

    /// Inserts one row, as `spec_insert` describes: a row with the same key
    /// is replaced in place, a fresh key is appended at the end.
    pub fn insert(&mut self, row: Row)
        requires
            old(self).wf(),
        ensures
            final(self)@ == spec_insert(old(self)@, row@),
            final(self).wf(),
    {
        proof {
            lemma_insert_unique(old(self)@, row@);
        }
        let idx = self.position_of(&row.key);
        if idx < self.rows.len() {
            self.rows.set(idx, row);
            proof {
                assert(self@ =~~= spec_insert(old(self)@, row@));
            }
        } else {
            self.rows.push(row);
            proof {
                assert(self@ =~~= spec_insert(old(self)@, row@));
            }
        }
    }

    /// Inserts every row of `rows`, in order, as `spec_insert_all`
    /// describes.
    pub fn insert_all(&mut self, rows: &Vec<Row>)
        requires
            old(self).wf(),
        ensures
            final(self)@ == spec_insert_all(old(self)@, rows.deep_view()),
            final(self).wf(),
    {
        let ghost xs = rows.deep_view();
        let mut i: usize = 0;
        proof {
            assert(xs.take(0) =~= Seq::<SpecRow>::empty());
        }
        while i < rows.len()
            invariant
                0 <= i <= xs.len(),
                xs == rows.deep_view(),
                self@ == spec_insert_all(old(self)@, xs.take(i as int)),
                self.wf(),
            decreases xs.len() - i,
        {
            let row = rows[i].clone();
            proof {
                assert(rows@[i as int].deep_view() == xs[i as int]);
                assert(xs.take(i + 1) =~= xs.take(i as int) + seq![xs[i as int]]);
                lemma_insert_all_concat(old(self)@, xs.take(i as int), seq![xs[i as int]]);
                lemma_insert_all_single(self@, xs[i as int]);
            }
            self.insert(row);
            i = i + 1;
        }
        proof {
            assert(xs.take(xs.len() as int) =~= xs);
        }
    }

    /// The display labels of all rows, in catalog order.
    pub fn labels(&self) -> (r: Vec<Vec<u8>>)
        ensures
            r.deep_view() == spec_labels(self@),
    {
        let mut r: Vec<Vec<u8>> = Vec::new();
        let mut i: usize = 0;
        proof {
            assert(r.deep_view() =~= spec_labels(self@.take(0)));
        }
        while i < self.rows.len()
            invariant
                0 <= i <= self@.len(),
                self@.len() == self.rows@.len(),
                self@ == self.rows.deep_view(),
                r.deep_view() == spec_labels(self@.take(i as int)),
            decreases self@.len() - i,
        {
            let lab = clone_bytes(&self.rows[i].entry.display_label);
            let ghost prev = r.deep_view();
            r.push(lab);
            proof {
                assert(self.rows@[i as int].deep_view() == self@[i as int]);
                assert(r.deep_view() =~~= prev.push(lab@));
                assert(r.deep_view() =~= spec_labels(self@.take(i + 1)));
            }
            i = i + 1;
        }
        proof {
            assert(self@.take(self@.len() as int) =~= self@);
        }
        r
    }

    /// All display labels, each followed by one line feed, in catalog order.
    pub fn joined_labels(&self) -> (r: Vec<u8>)
        ensures
            r@ == spec_joined(self@),
    {
        let mut r: Vec<u8> = Vec::new();
        let mut i: usize = 0;
        proof {
            assert(self@.take(0) =~= Seq::<SpecRow>::empty());
            assert(r@ =~= spec_joined(Seq::<SpecRow>::empty()));
        }
        while i < self.rows.len()
            invariant
                0 <= i <= self@.len(),
                self@.len() == self.rows@.len(),
                self@ == self.rows.deep_view(),
                r@ == spec_joined(self@.take(i as int)),
            decreases self@.len() - i,
        {
            append_bytes(&mut r, &self.rows[i].entry.display_label);
            r.push(10u8);
            proof {
                assert(self.rows@[i as int].deep_view() == self@[i as int]);
                assert(self@.take(i + 1) =~= self@.take(i as int) + seq![self@[i as int]]);
                lemma_joined_concat(self@.take(i as int), seq![self@[i as int]]);
                lemma_joined_single(self@[i as int]);
                assert(r@ =~= spec_joined(self@.take(i + 1)));
            }
            i = i + 1;
        }
        proof {
            assert(self@.take(self@.len() as int) =~= self@);
        }
        r
    }

    /// Linear scan for the first row whose display label is `label`; the
    /// selection step of runner mode.
    pub fn find_by_label(&self, label: &Vec<u8>) -> (r: Option<Entry>)
        ensures
            (r is Some) == (find_label(self@, label@) < self@.len()),
            r matches Some(e) ==> e@ == self@[find_label(self@, label@)].entry,
    {
        let mut i: usize = 0;
        while i < self.rows.len()
            invariant
                0 <= i <= self@.len(),
                self@.len() == self.rows@.len(),
                self@ == self.rows.deep_view(),
                forall|j: int| 0 <= j < i ==> self@[j].entry.display_label != label@,
            decreases self@.len() - i,
        {
            if bytes_eq(&self.rows[i].entry.display_label, label) {
                proof {
                    assert(self.rows@[i as int].deep_view() == self@[i as int]);
                    lemma_find_label_is(self@, label@, i as int);
                }
                return Some(self.rows[i].entry.clone());
            }
            proof {
                assert(self.rows@[i as int].deep_view() == self@[i as int]);
            }
            i = i + 1;
        }
        proof {
            lemma_find_label_is(self@, label@, self@.len() as int);
        }
        None
    }
}

/// The display labels of `rs`, in order.
pub open spec fn spec_labels(rs: Seq<SpecRow>) -> Seq<Seq<u8>> {
    rs.map_values(|r: SpecRow| r.entry.display_label)
}

/// The display labels of `rs`, each followed by one line feed.
pub open spec fn spec_joined(rs: Seq<SpecRow>) -> Seq<u8>
    decreases rs.len(),
{
    if rs.len() == 0 {
        Seq::<u8>::empty()
    } else {
        rs[0].entry.display_label + seq![10u8] + spec_joined(rs.drop_first())
    }
}

/// Joining a concatenation joins the parts.
pub proof fn lemma_joined_concat(a: Seq<SpecRow>, b: Seq<SpecRow>)
    ensures
        spec_joined(a + b) == spec_joined(a) + spec_joined(b),
    decreases a.len(),
{
    if a.len() == 0 {
        assert(a + b =~= b);
        assert(spec_joined(a) + spec_joined(b) =~= spec_joined(b));
    } else {
        assert((a + b)[0] == a[0]);
        assert((a + b).drop_first() =~= a.drop_first() + b);
        lemma_joined_concat(a.drop_first(), b);
        assert(a[0].entry.display_label + seq![10u8] + (spec_joined(a.drop_first())
            + spec_joined(b)) =~= spec_joined(a) + spec_joined(b));
    }
}

/// Joining a single row.
pub proof fn lemma_joined_single(r: SpecRow)
    ensures
        spec_joined(seq![r]) == r.entry.display_label + seq![10u8],
{
    assert(seq![r][0] == r);
    assert(seq![r].drop_first() =~= Seq::<SpecRow>::empty());
    assert(spec_joined(Seq::<SpecRow>::empty()) == Seq::<u8>::empty());
    assert(r.entry.display_label + seq![10u8] + Seq::<u8>::empty() =~= r.entry.display_label
        + seq![10u8]);
}

/// Index of the first row of `rs` whose display label is `l`, or `rs.len()`
/// when no row has it.
pub open spec fn find_label(rs: Seq<SpecRow>, l: Seq<u8>) -> int
    decreases rs.len(),
{
    if rs.len() == 0 {
        0
    } else if rs[0].entry.display_label == l {
        0
    } else {
        1 + find_label(rs.drop_first(), l)
    }
}

/// An index with no matching label before it, and the label at it unless it
/// is the length, is exactly `find_label`.
pub proof fn lemma_find_label_is(rs: Seq<SpecRow>, l: Seq<u8>, i: int)
    requires
        0 <= i <= rs.len(),
        forall|j: int| 0 <= j < i ==> rs[j].entry.display_label != l,
        i < rs.len() ==> rs[i].entry.display_label == l,
    ensures
        find_label(rs, l) == i,
    decreases rs.len(),
{
    if rs.len() == 0 {
    } else if rs[0].entry.display_label == l {
        assert(i == 0);
    } else {
        assert(i >= 1);
        assert forall|j: int| 0 <= j < i - 1 implies rs.drop_first()[j].entry.display_label
            != l by {
            assert(rs[j + 1].entry.display_label != l);
        }
        lemma_find_label_is(rs.drop_first(), l, i - 1);
    }
}

/// Worker results folded into an accumulator, in order.
pub open spec fn spec_fold_from(acc: Seq<SpecRow>, sys: Seq<Seq<SpecRow>>) -> Seq<SpecRow>
    decreases sys.len(),
{
    if sys.len() == 0 {
        acc
    } else {
        spec_fold_from(spec_insert_all(acc, sys[0]), sys.drop_first())
    }
}

/// Folding a concatenation folds the first part, then the second.
pub proof fn lemma_fold_concat(acc: Seq<SpecRow>, a: Seq<Seq<SpecRow>>, b: Seq<Seq<SpecRow>>)
    ensures
        spec_fold_from(acc, a + b) == spec_fold_from(spec_fold_from(acc, a), b),
    decreases a.len(),
{
    if a.len() == 0 {
        assert(a + b =~= b);
    } else {
        assert((a + b)[0] == a[0]);
        assert((a + b).drop_first() =~= a.drop_first() + b);
        lemma_fold_concat(spec_insert_all(acc, a[0]), a.drop_first(), b);
    }
}

/// Folding a single worker result.
pub proof fn lemma_fold_single(acc: Seq<SpecRow>, x: Seq<SpecRow>)
    ensures
        spec_fold_from(acc, seq![x]) == spec_insert_all(acc, x),
{
    assert(seq![x][0] == x);
    assert(seq![x].drop_first() =~= Seq::<Seq<SpecRow>>::empty());
    assert(spec_fold_from(spec_insert_all(acc, x), Seq::<Seq<SpecRow>>::empty())
        == spec_insert_all(acc, x));
}

/// The catalog that the whole merge yields: every worker's rows folded into
/// an empty catalog in worker order, then the user rows applied as
/// overrides.
pub open spec fn spec_build(sys: Seq<Seq<SpecRow>>, usr: Seq<SpecRow>) -> Seq<SpecRow> {
    spec_insert_all(spec_fold_from(Seq::<SpecRow>::empty(), sys), usr)
}

/// Builds the catalog from the per-worker system results and the user rows,
/// as `spec_build` describes.
pub fn build_catalog(sys: &Vec<Vec<Row>>, usr: &Vec<Row>) -> (c: Catalog)
    ensures
        c@ == spec_build(sys.deep_view(), usr.deep_view()),
        c.wf(),
{
    let ghost sv = sys.deep_view();
    let mut c = Catalog::new();
    let mut i: usize = 0;
    proof {
        assert(sv.take(0) =~= Seq::<Seq<SpecRow>>::empty());
    }
    while i < sys.len()
        invariant
            0 <= i <= sv.len(),
            sv == sys.deep_view(),
            c@ == spec_fold_from(Seq::<SpecRow>::empty(), sv.take(i as int)),
            c.wf(),
        decreases sv.len() - i,
    {
        proof {
            assert(sys@[i as int].deep_view() == sv[i as int]);
            assert(sv.take(i + 1) =~= sv.take(i as int) + seq![sv[i as int]]);
            lemma_fold_concat(Seq::<SpecRow>::empty(), sv.take(i as int), seq![sv[i as int]]);
            lemma_fold_single(c@, sv[i as int]);
        }
        c.insert_all(&sys[i]);
        i = i + 1;
    }
    proof {
        assert(sv.take(sv.len() as int) =~= sv);
    }
    c.insert_all(usr);
    c
}

/// The entry that `rs` maps `k` to: the entry of its one row keyed `k`, or
/// `None` when no row has the key.
pub open spec fn lookup(rs: Seq<SpecRow>, k: Seq<u8>) -> Option<SpecEntry> {
    let i = find_key(rs, k);
    if 0 <= i < rs.len() {
        Some(rs[i].entry)
    } else {
        None
    }
}

/// An insert binds its own key and leaves every other key unchanged.
pub proof fn lemma_insert_lookup(rs: Seq<SpecRow>, r: SpecRow, k: Seq<u8>)
    ensures
        lookup(spec_insert(rs, r), k) == (if k == r.key {
            Some(r.entry)
        } else {
            lookup(rs, k)
        }),
{
    lemma_find_key(rs, r.key);
    lemma_find_key(rs, k);
    let i = find_key(rs, r.key);
    let m = find_key(rs, k);
    let out = spec_insert(rs, r);
    if i < rs.len() {
        assert(rs[i].key == r.key);
        if k == r.key {
            lemma_find_key_is(out, k, i);
        } else {
            if m < rs.len() {
                assert(m != i);
            }
            lemma_find_key_is(out, k, m);
        }
    } else {
        if k == r.key {
            lemma_find_key_is(out, k, rs.len() as int);
        } else {
            if m < rs.len() {
                lemma_find_key_is(out, k, m);
            } else {
                lemma_find_key_is(out, k, rs.len() as int + 1);
            }
        }
    }
}

/// Index of the last row of `xs` whose key is `k`, or `-1` when no row has
/// it.
pub open spec fn last_key_index(xs: Seq<SpecRow>, k: Seq<u8>) -> int
    decreases xs.len(),
{
    if xs.len() == 0 {
        -1
    } else {
        let rest = last_key_index(xs.drop_first(), k);
        if rest >= 0 {
            1 + rest
        } else if xs[0].key == k {
            0
        } else {
            -1
        }
    }
}

/// `last_key_index` lands on the last occurrence of the key, and is `-1`
/// exactly when the key is absent.
pub proof fn lemma_last_key_index(xs: Seq<SpecRow>, k: Seq<u8>)
    ensures
        last_key_index(xs, k) >= 0 ==> 0 <= last_key_index(xs, k) < xs.len() && xs[last_key_index(
            xs,
            k,
        )].key == k,
        last_key_index(xs, k) >= 0 ==> forall|j: int|
            last_key_index(xs, k) < j < xs.len() ==> xs[j].key != k,
        last_key_index(xs, k) < 0 ==> forall|j: int| 0 <= j < xs.len() ==> xs[j].key != k,
    decreases xs.len(),
{
    if xs.len() > 0 {
        lemma_last_key_index(xs.drop_first(), k);
        let rest = last_key_index(xs.drop_first(), k);
        if rest >= 0 {
            assert(xs.drop_first()[rest] == xs[rest + 1]);
            assert forall|j: int| rest + 1 < j < xs.len() implies xs[j].key != k by {
                assert(xs.drop_first()[j - 1].key != k);
            }
        } else {
            assert forall|j: int| 1 <= j < xs.len() implies xs[j].key != k by {
                assert(xs.drop_first()[j - 1].key != k);
            }
        }
    }
}

/// After inserting all of `xs`, a key that `xs` holds maps to the entry of
/// its last row with that key; any other key keeps its prior binding.
pub proof fn lemma_insert_all_lookup(rs: Seq<SpecRow>, xs: Seq<SpecRow>, k: Seq<u8>)
    ensures
        lookup(spec_insert_all(rs, xs), k) == (if last_key_index(xs, k) >= 0 {
            Some(xs[last_key_index(xs, k)].entry)
        } else {
            lookup(rs, k)
        }),
    decreases xs.len(),
{
    if xs.len() > 0 {
        lemma_insert_lookup(rs, xs[0], k);
        lemma_insert_all_lookup(spec_insert(rs, xs[0]), xs.drop_first(), k);
        lemma_last_key_index(xs.drop_first(), k);
        let rest = last_key_index(xs.drop_first(), k);
        if rest >= 0 {
            assert(xs.drop_first()[rest] == xs[rest + 1]);
        }
    }
}

/// User-directory rows always win: for every key that the user rows hold,
/// the built catalog maps it to the entry of the last user row with that
/// key, whatever the system results hold for it.
pub proof fn lemma_user_override(sys: Seq<Seq<SpecRow>>, usr: Seq<SpecRow>, k: Seq<u8>)
    requires
        exists|i: int| 0 <= i < usr.len() && #[trigger] usr[i].key == k,
    ensures
        0 <= last_key_index(usr, k) < usr.len(),
        usr[last_key_index(usr, k)].key == k,
        lookup(spec_build(sys, usr), k) == Some(usr[last_key_index(usr, k)].entry),
{
    lemma_last_key_index(usr, k);
    if last_key_index(usr, k) < 0 {
        let i = choose|i: int| 0 <= i < usr.len() && #[trigger] usr[i].key == k;
        assert(usr[i].key != k);
        assert(false);
    }
    lemma_insert_all_lookup(spec_fold_from(Seq::<SpecRow>::empty(), sys), usr, k);
}

/// Total number of rows across all worker results.
pub open spec fn total_len(sys: Seq<Seq<SpecRow>>) -> int
    decreases sys.len(),
{
    if sys.len() == 0 {
        0
    } else {
        sys[0].len() + total_len(sys.drop_first())
    }
}

/// An insert grows the catalog by at most one row.
pub proof fn lemma_insert_len(rs: Seq<SpecRow>, r: SpecRow)
    ensures
        rs.len() <= spec_insert(rs, r).len() <= rs.len() + 1,
{
    lemma_find_key(rs, r.key);
}

/// Inserting `xs` grows the catalog by at most `xs.len()` rows.
pub proof fn lemma_insert_all_len(rs: Seq<SpecRow>, xs: Seq<SpecRow>)
    ensures
        spec_insert_all(rs, xs).len() <= rs.len() + xs.len(),
    decreases xs.len(),
{
    if xs.len() > 0 {
        lemma_insert_len(rs, xs[0]);
        lemma_insert_all_len(spec_insert(rs, xs[0]), xs.drop_first());
    }
}

/// Folding grows the accumulator by at most the total number of rows.
pub proof fn lemma_fold_from_len(acc: Seq<SpecRow>, sys: Seq<Seq<SpecRow>>)
    ensures
        spec_fold_from(acc, sys).len() <= acc.len() + total_len(sys),
    decreases sys.len(),
{
    if sys.len() > 0 {
        lemma_insert_all_len(acc, sys[0]);
        lemma_fold_from_len(spec_insert_all(acc, sys[0]), sys.drop_first());
    }
}

/// The catalog never holds more rows than parse results were handed to the
/// merge, so never more than the number of files with the desktop-entry
/// extension that the scan visited.
pub proof fn lemma_catalog_size(sys: Seq<Seq<SpecRow>>, usr: Seq<SpecRow>)
    ensures
        spec_build(sys, usr).len() <= total_len(sys) + usr.len(),
{
    lemma_fold_from_len(Seq::<SpecRow>::empty(), sys);
    lemma_insert_all_len(spec_fold_from(Seq::<SpecRow>::empty(), sys), usr);
}

/// Building is deterministic: the catalog, and with it the order of the
/// presented listing, is a function of the parse results alone, so repeated
/// runs over unchanged inputs present the same list.
pub proof fn lemma_build_deterministic(
    sys1: Seq<Seq<SpecRow>>,
    usr1: Seq<SpecRow>,
    sys2: Seq<Seq<SpecRow>>,
    usr2: Seq<SpecRow>,
)
    requires
        sys1 == sys2,
        usr1 == usr2,
    ensures
        spec_build(sys1, usr1) == spec_build(sys2, usr2),
        spec_labels(spec_build(sys1, usr1)) == spec_labels(spec_build(sys2, usr2)),
{
}

} // verus!
