//! An in-memory vector store: documents with metadata, each bound to one
//! embedding of the store's fixed dimension, ranked by dot product.
//!
//! Embeddings are fixed-point integers; a caller with real-valued vectors
//! scales them before handing them in.
use vstd::prelude::*;

verus! {

/// One metadata field of a document.
pub struct MetaField {
    pub key: String,
    pub value: String,
}

/// A document as handed out by the store. `score` is set on search results only.
pub struct Document {
    pub id: u64,
    pub page_content: String,
    pub metadata: Vec<MetaField>,
    pub score: Option<i128>,
}

/// The errors of store operations.
#[derive(Debug, PartialEq, Eq, Structural)]
pub enum StoreError {
    /// The store was used before `initialize`.
    NotInitialised,
    /// A vector does not have the store's dimension.
    DimensionMismatch,
    /// The store can hand out no further identifier.
    BackendError,
    /// No document has the identifier asked for.
    NotFound,
}

/// What the store keeps of a document.
pub struct Entry {
    id: u64,
    content: String,
    metadata: Vec<MetaField>,
    vector: Vec<i32>,
}

/// A stored document, as seen in contracts: id, content, metadata, vector.
pub type EntryView = (u64, Seq<char>, Seq<(Seq<char>, Seq<char>)>, Seq<i32>);

pub open spec fn meta_views(m: Seq<MetaField>) -> Seq<(Seq<char>, Seq<char>)> {
    m.map_values(|f: MetaField| (f.key@, f.value@))
}

impl View for Entry {
    type V = EntryView;

    closed spec fn view(&self) -> EntryView {
        (self.id, self.content@, meta_views(self.metadata@), self.vector@)
    }
}

pub open spec fn entry_views(v: Seq<Entry>) -> Seq<EntryView> {
    v.map_values(|e: Entry| e@)
}

/// The dot product of two vectors, over the common length.
pub open spec fn dot(a: Seq<i32>, b: Seq<i32>) -> int
    decreases a.len(),
{
    if a.len() == 0 || b.len() == 0 {
        0
    } else {
        dot(a.drop_last(), b.subrange(0, a.len() - 1)) + (a.last() as int) * (b[a.len() - 1] as int)
    }
}

/// A search hit: the document's id and its score.
pub type Hit = (u64, int);

/// Hit `a` comes before hit `b`: a higher score, or an equal score and a smaller id.
pub open spec fn ranks_before(a: Hit, b: Hit) -> bool {
    a.1 > b.1 || (a.1 == b.1 && a.0 < b.0)
}

/// The hits are in strictly ranked order.
pub open spec fn ranked(h: Seq<Hit>) -> bool {
    forall|i: int, j: int| 0 <= i < j < h.len() ==> ranks_before(#[trigger] h[i], #[trigger] h[j])
}

/// The hit of a stored entry for the query vector `q`.
pub open spec fn hit_of(e: EntryView, q: Seq<i32>) -> Hit {
    (e.0, dot(e.3, q))
}

/// A score is kept under the threshold `min`: it is at least `min`, where one is set.
pub open spec fn passes(score: int, min: Option<i128>) -> bool {
    match min {
        Some(m) => score >= m,
        None => true,
    }
}

/// `h` are the best `k` hits of `entries` for `q` whose scores pass `min`,
/// best first: ranked, each the hit of an entry and passing, at most `k` of
/// them, and each passing entry's hit either among them or, when `k` of them
/// were found, ranked after all of them.
pub open spec fn top_hits(entries: Seq<EntryView>, q: Seq<i32>, k: nat, min: Option<i128>, h: Seq<Hit>) -> bool {
    &&& ranked(h)
    &&& h.len() <= k
    &&& forall|p: int| 0 <= p < h.len() ==> passes(h[p].1, min) && exists|j: int| 0 <= j < entries.len() && #[trigger] h[p] == hit_of(#[trigger] entries[j], q)
    &&& forall|j: int|
        0 <= j < entries.len() && passes(hit_of(entries[j], q).1, min) ==> (h.contains(#[trigger] hit_of(entries[j], q)) || (h.len() == k
            && forall|p: int| 0 <= p < h.len() ==> ranks_before(#[trigger] h[p], hit_of(entries[j], q))))
}

/// Hit `h` may be picked after the hits `hs`: it passes `min` and ranks after them.
pub open spec fn is_candidate(hs: Seq<Hit>, h: Hit, min: Option<i128>) -> bool {
    passes(h.1, min) && (hs.len() == 0 || ranks_before(hs.last(), h))
}

/// Options of a search.
pub struct VecStoreOptions {
    /// Hits scoring below this are dropped.
    pub score_threshold: Option<i128>,
}

impl Default for VecStoreOptions {
    /// No threshold.
    fn default() -> (r: Self)
        ensures
            r.score_threshold is None,
    {
        VecStoreOptions { score_threshold: None }
    }
}

/// Whether `score` passes the threshold `min`.
fn meets(score: i128, min: Option<i128>) -> (r: bool)
    ensures
        r == passes(score as int, min),
{
    match min {
        Some(m) => score >= m,
        None => true,
    }
}

/// A copy of a document's metadata.
fn copy_metadata(m: &Vec<MetaField>) -> (r: Vec<MetaField>)
    ensures
        meta_views(r@) == meta_views(m@),
{
    let mut out: Vec<MetaField> = Vec::new();
    let mut i: usize = 0;
    while i < m.len()
        invariant
            i <= m.len(),
            out@.len() == i,
            meta_views(out@) == meta_views(m@).subrange(0, i as int),
        decreases m.len() - i,
    {
        let f = MetaField { key: m[i].key.clone(), value: m[i].value.clone() };
        let ghost prev = out@;
        out.push(f);
        proof {
            assert forall|k: int| 0 <= k < i implies out@[k] == prev[k] by {}
            assert forall|k: int| 0 <= k < i implies #[trigger] meta_views(out@)[k] == meta_views(m@)[k] by {
                assert(meta_views(prev)[k] == meta_views(m@).subrange(0, i as int)[k]);
            }
        }
        i = i + 1;
        assert(meta_views(out@) =~= meta_views(m@).subrange(0, i as int));
    }
    assert(meta_views(m@).subrange(0, i as int) =~= meta_views(m@));
    out
}

/// The dot product of two vectors of one length.
fn dot_product(a: &Vec<i32>, b: &Vec<i32>) -> (r: i128)
    requires
        a@.len() == b@.len(),
    ensures
        r == dot(a@, b@),
{
    let mut acc: i128 = 0;
    let mut i: usize = 0;
    while i < a.len()
        invariant
            i <= a@.len(),
            a@.len() == b@.len(),
            acc == dot(a@.subrange(0, i as int), b@.subrange(0, i as int)),
            -(i as int) * 0x4000_0000_0000_0000 <= acc <= (i as int) * 0x4000_0000_0000_0000,
        decreases a.len() - i,
    {
        let x: i64 = a[i] as i64;
        let y: i64 = b[i] as i64;
        assert(-0x4000_0000_0000_0000 <= x * y <= 0x4000_0000_0000_0000) by (nonlinear_arith)
            requires
                -0x8000_0000 <= x <= 0x7fff_ffff,
                -0x8000_0000 <= y <= 0x7fff_ffff,
        ;
        let p: i64 = x * y;
        assert((i as int) < 0x1_0000_0000_0000_0000);
        acc = acc + p as i128;
        i = i + 1;
        assert(a@.subrange(0, i as int).drop_last() =~= a@.subrange(0, i - 1));
        assert(b@.subrange(0, i as int).subrange(0, i - 1) =~= b@.subrange(0, i - 1));
    }
    assert(a@.subrange(0, i as int) =~= a@);
    assert(b@.subrange(0, i as int) =~= b@);
    acc
}

/// Whether hit `(a_id, a_score)` comes before hit `(b_id, b_score)`.
fn comes_before(a_id: u64, a_score: i128, b_id: u64, b_score: i128) -> (r: bool)
    ensures
        r == ranks_before((a_id, a_score as int), (b_id, b_score as int)),
{
    a_score > b_score || (a_score == b_score && a_id < b_id)
}

/// The hits of the entries at positions `picks`.
pub open spec fn pick_hits(entries: Seq<EntryView>, q: Seq<i32>, picks: Seq<usize>) -> Seq<Hit> {
    picks.map_values(|p: usize| hit_of(entries[p as int], q))
}

/// The hit that a search result stands for.
pub open spec fn doc_hit(d: Document) -> Hit {
    (
        d.id,
        match d.score {
            Some(x) => x as int,
            None => 0,
        },
    )
}

pub open spec fn doc_hits(v: Seq<Document>) -> Seq<Hit> {
    v.map_values(|d: Document| doc_hit(d))
}

/// A store of documents and their vectors, all of `dimensions` entries.
pub struct VectorStore {
    dimensions: usize,
    initialized: bool,
    entries: Vec<Entry>,
    next_id: u64,
}

/// The view of a store: dimension, whether it was initialised, the entries,
/// and the next id it hands out.
pub struct StoreView {
    pub dimensions: nat,
    pub initialized: bool,
    pub entries: Seq<EntryView>,
    pub next_id: nat,
}

/// The store after `initialize`.
pub open spec fn initialized(s: StoreView) -> StoreView {
    StoreView { initialized: true, ..s }
}

/// Whether some entry has the id `id`.
pub open spec fn has_id(entries: Seq<EntryView>, id: u64) -> bool {
    exists|j: int| 0 <= j < entries.len() && (#[trigger] entries[j]).0 == id
}

/// Every vector has the store's dimension; ids are distinct and below the next id.
pub open spec fn store_wf(v: StoreView) -> bool {
    &&& forall|j: int| 0 <= j < v.entries.len() ==> (#[trigger] v.entries[j]).3.len() == v.dimensions
    &&& forall|j: int| 0 <= j < v.entries.len() ==> (#[trigger] v.entries[j]).0 < v.next_id
    &&& forall|i: int, j: int|
        0 <= i < j < v.entries.len() ==> (#[trigger] v.entries[i]).0 != (#[trigger] v.entries[j]).0
}

/// The store after a document with this content, metadata and vector was added under the next id.
pub open spec fn added(s: StoreView, content: Seq<char>, meta: Seq<(Seq<char>, Seq<char>)>, vector: Seq<i32>) -> StoreView {
    StoreView { entries: s.entries.push((s.next_id as u64, content, meta, vector)), next_id: s.next_id + 1, ..s }
}

/// Every entry stored under `id` has this content and metadata.
pub open spec fn stored_as(entries: Seq<EntryView>, id: u64, content: Seq<char>, meta: Seq<(Seq<char>, Seq<char>)>) -> bool {
    forall|j: int| 0 <= j < entries.len() && (#[trigger] entries[j]).0 == id ==> entries[j].1 == content && entries[j].2 == meta
}

/// A document added to a store can be read back under the id it was given,
/// with the content and metadata it was added with.
pub proof fn lemma_add_then_get(s: StoreView, content: Seq<char>, meta: Seq<(Seq<char>, Seq<char>)>, vector: Seq<i32>)
    requires
        store_wf(s),
        s.initialized,
        vector.len() == s.dimensions,
        s.next_id < u64::MAX,
    ensures
        store_wf(added(s, content, meta, vector)),
        has_id(added(s, content, meta, vector).entries, s.next_id as u64),
        stored_as(added(s, content, meta, vector).entries, s.next_id as u64, content, meta),
{
    let a = added(s, content, meta, vector);
    assert(a.entries[s.entries.len() as int].0 == s.next_id as u64);
}

/// Initialising a second time changes nothing.
pub proof fn lemma_initialize_idempotent(s: StoreView)
    ensures
        initialized(initialized(s)) == initialized(s),
{
}

/// A document to be added: its content, metadata and vector.
pub struct NewDocument {
    pub page_content: String,
    pub metadata: Vec<MetaField>,
    pub vector: Vec<i32>,
}

/// A document to be added, as seen in contracts.
pub open spec fn new_doc_view(d: NewDocument) -> (Seq<char>, Seq<(Seq<char>, Seq<char>)>, Seq<i32>) {
    (d.page_content@, meta_views(d.metadata@), d.vector@)
}

/// The store after the documents `docs` were added in order, under
/// consecutive ids from the next one.
pub open spec fn added_all(s: StoreView, docs: Seq<NewDocument>) -> StoreView {
    StoreView {
        entries: s.entries + Seq::new(
            docs.len(),
            |i: int| ((s.next_id + i) as u64, new_doc_view(docs[i]).0, new_doc_view(docs[i]).1, new_doc_view(docs[i]).2),
        ),
        next_id: s.next_id + docs.len(),
        ..s
    }
}

/// A copy of a vector.
fn copy_vector(v: &Vec<i32>) -> (r: Vec<i32>)
    ensures
        r@ == v@,
{
    let mut out: Vec<i32> = Vec::new();
    let mut i: usize = 0;
    while i < v.len()
        invariant
            i <= v.len(),
            out@ == v@.subrange(0, i as int),
        decreases v.len() - i,
    {
        out.push(v[i]);
        i = i + 1;
        assert(out@ =~= v@.subrange(0, i as int));
    }
    assert(v@.subrange(0, i as int) =~= v@);
    out
}

impl View for VectorStore {
    type V = StoreView;

    closed spec fn view(&self) -> StoreView {
        StoreView {
            dimensions: self.dimensions as nat,
            initialized: self.initialized,
            entries: entry_views(self.entries@),
            next_id: self.next_id as nat,
        }
    }
}

impl VectorStore {
    /// Every vector has the store's dimension; ids are distinct and below the next id.
    pub open spec fn wf(&self) -> bool {
        store_wf(self@)
    }

    /// An empty store for vectors of `dimensions` entries; not initialised yet.
    pub fn new(dimensions: usize) -> (r: Self)
        ensures
            r.wf(),
            r@.dimensions == dimensions,
            !r@.initialized,
            r@.entries.len() == 0,
            r@.next_id == 0,
    {
        let r = VectorStore { dimensions, initialized: false, entries: Vec::new(), next_id: 0 };
        assert(r@.entries =~= Seq::<EntryView>::empty());
        r
    }

    /// The dimension of the store's vectors.
    pub fn vector_dimensions(&self) -> (r: usize)
        ensures
            r == self@.dimensions,
    {
        self.dimensions
    }

    /// Makes the store ready for use; on a ready store it changes nothing.
    pub fn initialize(&mut self)
        requires
            old(self).wf(),
        ensures
            final(self).wf(),
            final(self)@ == initialized(old(self)@),
    {
        let ghost before = self@;
        self.initialized = true;
        assert(self@.entries == before.entries);
    }

    /// Position of the entry with id `id`, if any.
    fn position(&self, id: u64) -> (r: Option<usize>)
        requires
            self.wf(),
        ensures
            r is None <==> !has_id(self@.entries, id),
            r matches Some(j) ==> j < self@.entries.len() && self@.entries[j as int].0 == id,
    {
        let mut i: usize = 0;
        while i < self.entries.len()
            invariant
                i <= self.entries.len(),
                self.wf(),
                forall|j: int| 0 <= j < i ==> (#[trigger] self@.entries[j]).0 != id,
            decreases self.entries.len() - i,
        {
            assert(self@.entries[i as int] == self.entries@[i as int]@);
            if self.entries[i].id == id {
                return Some(i);
            }
            i = i + 1;
        }
        None
    }

    /// Stores a document with its vector under a fresh id, which it returns.
    /// Fails, storing nothing, on a store not initialised, on a vector not of
    /// the store's dimension, and when no fresh id is left.
    pub fn add_document(&mut self, page_content: String, metadata: Vec<MetaField>, vector: Vec<i32>) -> (r: Result<u64, StoreError>)
        requires
            old(self).wf(),
        ensures
            final(self).wf(),
            final(self)@.dimensions == old(self)@.dimensions,
            final(self)@.initialized == old(self)@.initialized,
            !old(self)@.initialized ==> r == Err::<u64, StoreError>(StoreError::NotInitialised),
            old(self)@.initialized && vector@.len() != old(self)@.dimensions ==> r == Err::<u64, StoreError>(StoreError::DimensionMismatch),
            old(self)@.initialized && vector@.len() == old(self)@.dimensions && old(self)@.next_id == u64::MAX
                ==> r == Err::<u64, StoreError>(StoreError::BackendError),
            r is Err ==> final(self)@ == old(self)@,
            old(self)@.initialized && vector@.len() == old(self)@.dimensions && old(self)@.next_id < u64::MAX
                ==> r == Ok::<u64, StoreError>(old(self)@.next_id as u64)
                    && final(self)@ == added(old(self)@, page_content@, meta_views(metadata@), vector@),
    {
        if !self.initialized {
            return Err(StoreError::NotInitialised);
        }
        if vector.len() != self.dimensions {
            return Err(StoreError::DimensionMismatch);
        }
        if self.next_id == u64::MAX {
            return Err(StoreError::BackendError);
        }
        let id = self.next_id;
        let ghost before = self.entries@;
        let ghost s0 = self@;
        proof {
            lemma_add_then_get(s0, page_content@, meta_views(metadata@), vector@);
        }
        let e = Entry { id, content: page_content, metadata, vector };
        self.entries.push(e);
        self.next_id = id + 1;
        assert(entry_views(self.entries@) =~= entry_views(before).push(e@));
        assert(self@ == added(s0, e.content@, meta_views(e.metadata@), e.vector@));
        Ok(id)
    }

    /// Stores the documents `docs` in order under consecutive fresh ids,
    /// which it returns. All or nothing: on a store not initialised, on any
    /// vector not of the store's dimension, or when too few fresh ids are
    /// left, it fails and stores none of them.
    pub fn add_documents(&mut self, docs: &Vec<NewDocument>) -> (r: Result<Vec<u64>, StoreError>)
        requires
            old(self).wf(),
        ensures
            final(self).wf(),
            !old(self)@.initialized ==> r == Err::<Vec<u64>, StoreError>(StoreError::NotInitialised),
            old(self)@.initialized && (exists|i: int| 0 <= i < docs@.len() && (#[trigger] docs@[i]).vector@.len() != old(self)@.dimensions)
                ==> r == Err::<Vec<u64>, StoreError>(StoreError::DimensionMismatch),
            old(self)@.initialized && (forall|i: int| 0 <= i < docs@.len() ==> (#[trigger] docs@[i]).vector@.len() == old(self)@.dimensions)
                && old(self)@.next_id + docs@.len() > u64::MAX ==> r == Err::<Vec<u64>, StoreError>(StoreError::BackendError),
            r is Err ==> final(self)@ == old(self)@,
            old(self)@.initialized && (forall|i: int| 0 <= i < docs@.len() ==> (#[trigger] docs@[i]).vector@.len() == old(self)@.dimensions)
                && old(self)@.next_id + docs@.len() <= u64::MAX ==> r is Ok,
            r matches Ok(ids) ==> ids@ == Seq::new(docs@.len(), |i: int| (old(self)@.next_id + i) as u64)
                && final(self)@ == added_all(old(self)@, docs@),
    {
        if !self.initialized {
            return Err(StoreError::NotInitialised);
        }
        let mut i: usize = 0;
        while i < docs.len()
            invariant
                i <= docs@.len(),
                self@ == old(self)@,
                self.wf(),
                self@.initialized,
                forall|j: int| 0 <= j < i ==> (#[trigger] docs@[j]).vector@.len() == self@.dimensions,
            decreases docs.len() - i,
        {
            if docs[i].vector.len() != self.dimensions {
                return Err(StoreError::DimensionMismatch);
            }
            i = i + 1;
        }
        if docs.len() as u64 > u64::MAX - self.next_id {
            return Err(StoreError::BackendError);
        }
        let ghost s0 = self@;
        let mut ids: Vec<u64> = Vec::new();
        let mut i: usize = 0;
        while i < docs.len()
            invariant
                i <= docs@.len(),
                self.wf(),
                self@.initialized,
                forall|j: int| 0 <= j < docs@.len() ==> (#[trigger] docs@[j]).vector@.len() == self@.dimensions,
                s0.next_id + docs@.len() <= u64::MAX,
                self@ == added_all(s0, docs@.subrange(0, i as int)),
                ids@ == Seq::new(i as nat, |j: int| (s0.next_id + j) as u64),
            decreases docs.len() - i,
        {
            let d = &docs[i];
            let r = self.add_document(d.page_content.clone(), copy_metadata(&d.metadata), copy_vector(&d.vector));
            let id = match r {
                Ok(id) => id,
                Err(e) => return Err(e),
            };
            ids.push(id);
            assert(docs@.subrange(0, i + 1).drop_last() =~= docs@.subrange(0, i as int));
            i = i + 1;
            assert(self@.entries =~= added_all(s0, docs@.subrange(0, i as int)).entries);
            assert(ids@ =~= Seq::new(i as nat, |j: int| (s0.next_id + j) as u64));
        }
        assert(docs@.subrange(0, i as int) =~= docs@);
        Ok(ids)
    }

    /// The document stored under `id`, without a score; `NotFound` where there is none.
    pub fn get(&self, id: u64) -> (r: Result<Document, StoreError>)
        requires
            self.wf(),
        ensures
            r is Err <==> !has_id(self@.entries, id),
            r matches Err(e) ==> e == StoreError::NotFound,
            r matches Ok(d) ==> d.id == id && d.score is None && exists|j: int|
                0 <= j < self@.entries.len() && (#[trigger] self@.entries[j]).0 == id
                    && d.page_content@ == self@.entries[j].1 && meta_views(d.metadata@) == self@.entries[j].2,
    {
        match self.position(id) {
            None => Err(StoreError::NotFound),
            Some(j) => {
                let e = &self.entries[j];
                assert(self@.entries[j as int] == e@);
                Ok(Document { id, page_content: e.content.clone(), metadata: copy_metadata(&e.metadata), score: None })
            },
        }
    }

    /// Removes the document stored under `id`; `NotFound` where there is none.
    pub fn delete(&mut self, id: u64) -> (r: Result<(), StoreError>)
        requires
            old(self).wf(),
        ensures
            final(self).wf(),
            r is Err <==> !has_id(old(self)@.entries, id),
            r matches Err(e) ==> e == StoreError::NotFound && final(self)@ == old(self)@,
            r is Ok ==> exists|j: int|
                0 <= j < old(self)@.entries.len() && (#[trigger] old(self)@.entries[j]).0 == id
                    && final(self)@ == (StoreView { entries: old(self)@.entries.remove(j), ..old(self)@ }),
    {
        match self.position(id) {
            None => Err(StoreError::NotFound),
            Some(j) => {
                let ghost before = self.entries@;
                self.entries.remove(j);
                assert(entry_views(self.entries@) =~= entry_views(before).remove(j as int));
                Ok(())
            },
        }
    }

    /// The scores of all entries for `q`, in store order.
    fn scores(&self, q: &Vec<i32>) -> (r: Vec<i128>)
        requires
            self.wf(),
            q@.len() == self@.dimensions,
        ensures
            r@.len() == self@.entries.len(),
            forall|j: int| 0 <= j < r@.len() ==> r@[j] as int == #[trigger] hit_of(self@.entries[j], q@).1,
    {
        let mut out: Vec<i128> = Vec::new();
        let mut i: usize = 0;
        while i < self.entries.len()
            invariant
                i <= self.entries.len(),
                self.wf(),
                q@.len() == self@.dimensions,
                out@.len() == i,
                forall|j: int| 0 <= j < i ==> out@[j] as int == #[trigger] hit_of(self@.entries[j], q@).1,
            decreases self.entries.len() - i,
        {
            assert(self@.entries[i as int] == self.entries@[i as int]@);
            let d = dot_product(&self.entries[i].vector, q);
            out.push(d);
            i = i + 1;
        }
        out
    }

    /// Positions of the best `k` entries for `q`, best first.
    fn best_positions(&self, q: &Vec<i32>, k: usize, min: Option<i128>) -> (r: Vec<usize>)
        requires
            self.wf(),
            q@.len() == self@.dimensions,
        ensures
            forall|p: int| 0 <= p < r@.len() ==> (#[trigger] r@[p]) < self@.entries.len(),
            top_hits(self@.entries, q@, k as nat, min, pick_hits(self@.entries, q@, r@)),
    {
        let ghost es = self@.entries;
        let scores = self.scores(q);
        let n = self.entries.len();
        let mut picks: Vec<usize> = Vec::new();
        let mut exhausted = false;
        while picks.len() < k && !exhausted
            invariant
                es == self@.entries,
                n == es.len(),
                scores@.len() == n,
                forall|j: int| 0 <= j < n ==> scores@[j] as int == #[trigger] hit_of(es[j], q@).1,
                forall|j: int| 0 <= j < n ==> (#[trigger] es[j]).0 == self.entries@[j].id,
                picks@.len() <= k,
                forall|p: int| 0 <= p < picks@.len() ==> (#[trigger] picks@[p]) < n,
                ranked(pick_hits(es, q@, picks@)),
                forall|p: int| 0 <= p < picks@.len() ==> passes(#[trigger] pick_hits(es, q@, picks@)[p].1, min),
                forall|j: int| 0 <= j < n && picks@.len() > 0 && !ranks_before(pick_hits(es, q@, picks@).last(), #[trigger] hit_of(es[j], q@))
                    ==> pick_hits(es, q@, picks@).contains(hit_of(es[j], q@)),
                exhausted ==> forall|j: int| 0 <= j < n ==> !is_candidate(pick_hits(es, q@, picks@), #[trigger] hit_of(es[j], q@), min),
            decreases k - picks@.len(), (if exhausted { 0int } else { 1int }),
        {
            let ghost hs = pick_hits(es, q@, picks@);
            let mut best: Option<usize> = None;
            let mut j: usize = 0;
            while j < n
                invariant
                    es == self@.entries,
                    n == es.len(),
                    scores@.len() == n,
                    forall|j: int| 0 <= j < n ==> scores@[j] as int == #[trigger] hit_of(es[j], q@).1,
                    forall|j: int| 0 <= j < n ==> (#[trigger] es[j]).0 == self.entries@[j].id,
                    hs == pick_hits(es, q@, picks@),
                    forall|p: int| 0 <= p < picks@.len() ==> (#[trigger] picks@[p]) < n,
                    j <= n,
                    best matches Some(b) ==> b < j && is_candidate(hs, hit_of(es[b as int], q@), min),
                    forall|i: int| 0 <= i < j && is_candidate(hs, #[trigger] hit_of(es[i], q@), min)
                        ==> (best matches Some(b) && !ranks_before(hit_of(es[i], q@), hit_of(es[b as int], q@))),
                decreases n - j,
            {
                let id = self.entries[j].id;
                let candidate = if !meets(scores[j], min) {
                    false
                } else if picks.len() == 0 {
                    true
                } else {
                    let last = picks[picks.len() - 1];
                    comes_before(self.entries[last].id, scores[last], id, scores[j])
                };
                if candidate {
                    match best {
                        None => {
                            best = Some(j);
                        },
                        Some(b) => {
                            if comes_before(id, scores[j], self.entries[b].id, scores[b]) {
                                best = Some(j);
                            }
                        },
                    }
                }
                j = j + 1;
            }
            match best {
                None => {
                    exhausted = true;
                },
                Some(b) => {
                    picks.push(b);
                    proof {
                        let nh = pick_hits(es, q@, picks@);
                        assert(nh =~= hs.push(hit_of(es[b as int], q@)));
                        assert forall|p: int| 0 <= p < nh.len() implies passes(#[trigger] nh[p].1, min) by {
                            if p < hs.len() {
                                assert(nh[p] == hs[p]);
                            }
                        }
                        assert forall|i: int| 0 <= i < n && !ranks_before(nh.last(), #[trigger] hit_of(es[i], q@))
                            implies nh.contains(hit_of(es[i], q@)) by {
                            if hs.len() > 0 && !ranks_before(hs.last(), hit_of(es[i], q@)) {
                                let w = choose|x: int| 0 <= x < hs.len() && hs[x] == hit_of(es[i], q@);
                                assert(nh[w] == hs[w]);
                            } else {
                                assert(nh[nh.len() - 1] == hit_of(es[i], q@));
                            }
                        }
                    }
                },
            }
        }
        proof {
            let hs = pick_hits(es, q@, picks@);
            assert forall|p: int| 0 <= p < hs.len() implies passes(hs[p].1, min) && exists|j: int|
                0 <= j < es.len() && #[trigger] hs[p] == hit_of(#[trigger] es[j], q@) by {
                assert(hs[p] == hit_of(es[picks@[p] as int], q@));
            }
            assert forall|j: int| 0 <= j < es.len() && passes(hit_of(es[j], q@).1, min) implies (hs.contains(#[trigger] hit_of(es[j], q@)) || (
                hs.len() == k && forall|p: int| 0 <= p < hs.len() ==> ranks_before(#[trigger] hs[p], hit_of(es[j], q@)))) by {
                if hs.len() > 0 && ranks_before(hs.last(), hit_of(es[j], q@)) {
                    assert forall|p: int| 0 <= p < hs.len() implies ranks_before(#[trigger] hs[p], hit_of(es[j], q@)) by {
                        if p < hs.len() - 1 {
                            assert(ranks_before(hs[p], hs[hs.len() - 1]));
                        }
                    }
                }
            }
        }
        picks
    }

    /// The best `k` documents for the query vector `query`, best first: by
    /// descending dot product, ties by ascending id, each with its score;
    /// those scoring below the options' threshold are dropped. Fails on a
    /// store not initialised and on a query not of the store's dimension.
    pub fn similarity_search_by_vector(&self, query: &Vec<i32>, k: usize, opts: &VecStoreOptions) -> (r: Result<Vec<Document>, StoreError>)
        requires
            self.wf(),
        ensures
            !self@.initialized ==> r == Err::<Vec<Document>, StoreError>(StoreError::NotInitialised),
            self@.initialized && query@.len() != self@.dimensions ==> r == Err::<Vec<Document>, StoreError>(StoreError::DimensionMismatch),
            self@.initialized && query@.len() == self@.dimensions ==> r is Ok,
            r matches Ok(v) ==> {
                &&& top_hits(self@.entries, query@, k as nat, opts.score_threshold, doc_hits(v@))
                &&& forall|i: int, j: int| 0 <= i < j < v@.len() ==> doc_hit(#[trigger] v@[i]).1 >= doc_hit(#[trigger] v@[j]).1
                &&& forall|p: int| 0 <= p < v@.len() ==> (#[trigger] v@[p]).score is Some && exists|j: int|
                    0 <= j < self@.entries.len() && (#[trigger] self@.entries[j]).0 == v@[p].id
                        && v@[p].page_content@ == self@.entries[j].1 && meta_views(v@[p].metadata@) == self@.entries[j].2
            },
    {
        if !self.initialized {
            return Err(StoreError::NotInitialised);
        }
        if query.len() != self.dimensions {
            return Err(StoreError::DimensionMismatch);
        }
        let picks = self.best_positions(query, k, opts.score_threshold);
        let ghost es = self@.entries;
        let ghost want = pick_hits(es, query@, picks@);
        let mut out: Vec<Document> = Vec::new();
        let mut i: usize = 0;
        while i < picks.len()
            invariant
                self.wf(),
                query@.len() == self@.dimensions,
                es == self@.entries,
                want == pick_hits(es, query@, picks@),
                forall|p: int| 0 <= p < picks@.len() ==> (#[trigger] picks@[p]) < es.len(),
                i <= picks@.len(),
                out@.len() == i,
                forall|p: int| 0 <= p < i ==> doc_hit(#[trigger] out@[p]) == want[p],
                forall|p: int| 0 <= p < i ==> (#[trigger] out@[p]).score is Some && exists|j: int|
                    0 <= j < es.len() && (#[trigger] es[j]).0 == out@[p].id
                        && out@[p].page_content@ == es[j].1 && meta_views(out@[p].metadata@) == es[j].2,
            decreases picks@.len() - i,
        {
            let j = picks[i];
            let e = &self.entries[j];
            assert(es[j as int] == e@);
            let score = dot_product(&e.vector, query);
            let d = Document { id: e.id, page_content: e.content.clone(), metadata: copy_metadata(&e.metadata), score: Some(score) };
            out.push(d);
            i = i + 1;
        }
        assert(doc_hits(out@) =~= want);
        Ok(out)
    }

    /// How many documents the store holds.
    pub fn len(&self) -> (r: usize)
        ensures
            r == self@.entries.len(),
    {
        self.entries.len()
    }
}

} // verus!
