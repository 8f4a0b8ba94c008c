//! The attachment store: content is stored once, under the digest that
//! identifies it, and every later ingestion of the same content gets the
//! identifier of the first.

use crate::attachment::{
    content_digest, content_hash, data_uri_head, fresh_attachment, guessed_mime, kind_of_code,
    kind_of_mime,
    mime_of_path, prepare_file_content, stored_content, AttachmentResult, AttachmentType,
    AttachmentView, MessageAttachment,
};
use crate::bindings::base64_standard;
use crate::error::AppError;
use crate::text::same_text;
use vstd::prelude::*;
use vstd::string::*;

verus! {

/// What a store holds: its rows in the order of their creation, and the
/// identifier that the next row gets.
#[verifier::ext_equal]
pub struct StoreView {
    pub rows: Seq<AttachmentView>,
    pub next_id: i64,
}

/// Position of the first row with the hash `hash`, from position `from`
/// on; the number of rows where there is none.
pub open spec fn index_of_hash(rows: Seq<AttachmentView>, hash: Seq<char>, from: int) -> int
    decreases rows.len() - from,
{
    if from < 0 || from >= rows.len() {
        rows.len() as int
    } else if rows[from].attachment_hash == hash {
        from
    } else {
        index_of_hash(rows, hash, from + 1)
    }
}

/// How many rows have the hash `hash`.
pub open spec fn rows_with_hash(rows: Seq<AttachmentView>, hash: Seq<char>) -> nat
    decreases rows.len(),
{
    if rows.len() == 0 {
        0
    } else if rows.last().attachment_hash == hash {
        rows_with_hash(rows.drop_last(), hash) + 1
    } else {
        rows_with_hash(rows.drop_last(), hash)
    }
}

/// The highest identifier among `rows`; zero where there are none above it.
pub open spec fn highest_id(rows: Seq<AttachmentView>) -> int
    decreases rows.len(),
{
    if rows.len() == 0 {
        0
    } else if rows.last().id > highest_id(rows.drop_last()) {
        rows.last().id as int
    } else {
        highest_id(rows.drop_last())
    }
}

/// Whether `rows` can be the rows of a store: they form a well-formed store
/// whose next identifier is the one above the highest of theirs.
pub open spec fn loadable(rows: Seq<AttachmentView>) -> bool {
    highest_id(rows) < i64::MAX && StoreView::of_rows(rows).wf()
}

/// What an ingestion does to a store, and what it returns.
pub struct Ingestion {
    pub store: StoreView,
    pub outcome: Result<i64, AppError>,
}

impl StoreView {
    /// The store without rows.
    pub open spec fn empty() -> StoreView {
        StoreView { rows: Seq::empty(), next_id: 1 }
    }

    /// The store that holds `rows`.
    pub open spec fn of_rows(rows: Seq<AttachmentView>) -> StoreView {
        StoreView { rows, next_id: (highest_id(rows) + 1) as i64 }
    }

    /// A store is well formed where its rows have distinct identifiers
    /// below `next_id`, no two rows have the same hash, and the hash of
    /// each row is the digest of its content.
    pub open spec fn wf(self) -> bool {
        &&& 1 <= self.next_id
        &&& forall|i: int|
            0 <= i < self.rows.len() ==> 1 <= (#[trigger] self.rows[i]).id < self.next_id
        &&& forall|i: int, j: int|
            0 <= i < j < self.rows.len() ==> (#[trigger] self.rows[i]).id != (
            #[trigger] self.rows[j]).id
        &&& forall|i: int, j: int|
            0 <= i < j < self.rows.len() ==> (#[trigger] self.rows[i]).attachment_hash != (
            #[trigger] self.rows[j]).attachment_hash
        &&& forall|i: int|
            0 <= i < self.rows.len() ==> (#[trigger] self.rows[i]).attachment_hash
                == content_digest(self.rows[i].attachment_content)
    }

    /// The row with the hash `hash`, if there is one.
    pub open spec fn read_by_hash(self, hash: Seq<char>) -> Option<AttachmentView> {
        let i = index_of_hash(self.rows, hash, 0);
        if i < self.rows.len() {
            Some(self.rows[i])
        } else {
            None
        }
    }

    /// The row that an ingestion of `content` creates in this store.
    pub open spec fn new_row(
        self,
        kind: AttachmentType,
        origin: Seq<char>,
        content: Seq<char>,
    ) -> AttachmentView {
        AttachmentView { id: self.next_id, ..fresh_attachment(kind, origin, content) }
    }

    /// To ingest `content` is to return the identifier of the row with its
    /// digest, where there is one, and else to create a row for it, attached
    /// to no message, and to return its new identifier. Where no identifier
    /// is left the store fails and stays as it is.
    pub open spec fn ingest(
        self,
        kind: AttachmentType,
        origin: Seq<char>,
        content: Seq<char>,
    ) -> Ingestion {
        match self.read_by_hash(content_digest(content)) {
            Some(row) => Ingestion { store: self, outcome: Ok(row.id) },
            None => if self.next_id == i64::MAX {
                Ingestion { store: self, outcome: Err(AppError::Persistence) }
            } else {
                Ingestion {
                    store: StoreView {
                        rows: self.rows.push(self.new_row(kind, origin, content)),
                        next_id: (self.next_id + 1) as i64,
                    },
                    outcome: Ok(self.next_id),
                }
            },
        }
    }

    /// To ingest a file: a missing file is not found; a file is stored as
    /// its media type says, its media type being guessed from its path.
    pub open spec fn ingest_file(self, path: Seq<char>, file: Option<Seq<u8>>) -> Ingestion {
        match file {
            None => Ingestion { store: self, outcome: Err(AppError::NotFound) },
            Some(bytes) => match stored_content(guessed_mime(path), bytes) {
                Ok((kind, content)) => self.ingest(kind, path, content),
                Err(e) => Ingestion { store: self, outcome: Err(e) },
            },
        }
    }
}

pub proof fn lemma_index_of_hash(rows: Seq<AttachmentView>, hash: Seq<char>, from: int)
    requires
        0 <= from <= rows.len(),
    ensures
        from <= index_of_hash(rows, hash, from) <= rows.len(),
        index_of_hash(rows, hash, from) < rows.len() ==> rows[index_of_hash(
            rows,
            hash,
            from,
        )].attachment_hash == hash,
        forall|j: int|
            from <= j < index_of_hash(rows, hash, from) ==> (#[trigger] rows[j]).attachment_hash
                != hash,
    decreases rows.len() - from,
{
    if from < rows.len() && rows[from].attachment_hash != hash {
        lemma_index_of_hash(rows, hash, from + 1);
    }
}

/// What to do with content that is to be ingested, once the row with its
/// hash has been looked up.
#[derive(Debug)]
pub enum IngestPlan {
    /// The content is stored: this is its identifier.
    Reuse(i64),
    /// The content is new: this row is to be created.
    Create(MessageAttachment),
}

/// Decides an ingestion: content whose hash has a row keeps that row's
/// identifier, and the row stays as it is; for other content `candidate` is
/// created.
pub fn plan_ingest(existing: Option<&MessageAttachment>, candidate: MessageAttachment) -> (plan:
    IngestPlan)
    ensures
        match existing {
            Some(row) => plan == IngestPlan::Reuse(row.id),
            None => plan == IngestPlan::Create(candidate),
        },
{
    match existing {
        Some(row) => IngestPlan::Reuse(row.id),
        None => IngestPlan::Create(candidate),
    }
}

/// Content-addressed store of attachments.
pub struct AttachmentStore {
    rows: Vec<MessageAttachment>,
    next_id: i64,
}

impl View for AttachmentStore {
    type V = StoreView;

    closed spec fn view(&self) -> StoreView {
        StoreView { rows: self.rows.deep_view(), next_id: self.next_id }
    }
}

/// What a file holds, if there is one.
pub open spec fn file_bytes(file: Option<&[u8]>) -> Option<Seq<u8>> {
    match file {
        Some(bytes) => Some(bytes@),
        None => None,
    }
}

/// What a lookup found, by its characters.
pub open spec fn found_view(found: Option<&MessageAttachment>) -> Option<AttachmentView> {
    match found {
        Some(row) => Some(row.deep_view()),
        None => None,
    }
}

impl AttachmentStore {
    /// A store without rows.
    pub fn new() -> (store: AttachmentStore)
        ensures
            store@ == StoreView::empty(),
            store@.wf(),
    {
        let store = AttachmentStore { rows: Vec::new(), next_id: 1 };
        assert(store@.rows =~= Seq::empty());
        store
    }

    /// The store that holds `rows`, as they were read from where they are
    /// kept. Rows that cannot be the rows of a store are refused: the backing
    /// store is broken.
    pub fn from_rows(rows: Vec<MessageAttachment>) -> (loaded: Result<AttachmentStore, AppError>)
        ensures
            match loaded {
                Ok(store) => loadable(rows.deep_view()) && store@ == StoreView::of_rows(
                    rows.deep_view(),
                ),
                Err(e) => e == AppError::Persistence && !loadable(rows.deep_view()),
            },
    {
        let ghost all = rows.deep_view();
        let mut highest: i64 = 0;
        let mut i: usize = 0;
        assert(all.take(0) =~= Seq::empty());
        while i < rows.len()
            invariant
                i <= rows@.len(),
                all == rows.deep_view(),
                0 <= highest,
                highest == highest_id(all.take(i as int)),
                forall|k: int| 0 <= k < i ==> 1 <= (#[trigger] all[k]).id <= highest,
                forall|k: int, j: int|
                    0 <= k < j < i ==> (#[trigger] all[k]).id != (#[trigger] all[j]).id,
                forall|k: int, j: int|
                    0 <= k < j < i ==> (#[trigger] all[k]).attachment_hash != (
                    #[trigger] all[j]).attachment_hash,
                forall|k: int|
                    0 <= k < i ==> (#[trigger] all[k]).attachment_hash == content_digest(
                        all[k].attachment_content,
                    ),
            decreases rows@.len() - i,
        {
            let row = &rows[i];
            assert(row.deep_view() == all[i as int]);
            assert(all.take(i + 1).drop_last() =~= all.take(i as int));
            assert(all.take(i + 1).last() == all[i as int]);
            if row.id < 1 {
                return Err(AppError::Persistence);
            }
            let digest = content_hash(row.attachment_content.as_str());
            if !same_text(digest.as_str(), row.attachment_hash.as_str()) {
                return Err(AppError::Persistence);
            }
            let mut j: usize = 0;
            while j < i
                invariant
                    j <= i < rows@.len(),
                    all == rows.deep_view(),
                    row.deep_view() == all[i as int],
                    forall|k: int| 0 <= k < j ==> (#[trigger] all[k]).id != all[i as int].id,
                    forall|k: int|
                        0 <= k < j ==> (#[trigger] all[k]).attachment_hash != all[i
                            as int].attachment_hash,
                decreases i - j,
            {
                let other = &rows[j];
                assert(other.deep_view() == all[j as int]);
                if other.id == row.id || same_text(
                    other.attachment_hash.as_str(),
                    row.attachment_hash.as_str(),
                ) {
                    return Err(AppError::Persistence);
                }
                j = j + 1;
            }
            if row.id > highest {
                highest = row.id;
            }
            i = i + 1;
        }
        assert(all.take(i as int) =~= all);
        if highest == i64::MAX {
            return Err(AppError::Persistence);
        }
        Ok(AttachmentStore { rows, next_id: highest + 1 })
    }

    /// The number of rows.
    pub fn len(&self) -> (n: usize)
        ensures
            n == self@.rows.len(),
    {
        self.rows.len()
    }

    /// The row at position `index`, in the order of creation.
    pub fn row(&self, index: usize) -> (row: &MessageAttachment)
        requires
            index < self@.rows.len(),
        ensures
            row.deep_view() == self@.rows[index as int],
    {
        &self.rows[index]
    }

    fn find_hash(&self, hash: &str) -> (i: usize)
        ensures
            i == index_of_hash(self@.rows, hash@, 0),
            i <= self.rows@.len(),
    {
        let mut i: usize = 0;
        while i < self.rows.len()
            invariant
                i <= self.rows@.len(),
                self@.rows == self.rows.deep_view(),
                index_of_hash(self@.rows, hash@, 0) == index_of_hash(self@.rows, hash@, i as int),
            decreases self.rows@.len() - i,
        {
            if same_text(self.rows[i].attachment_hash.as_str(), hash) {
                return i;
            }
            i = i + 1;
        }
        i
    }

    /// The row with the hash `hash`, if there is one.
    pub fn read_by_attachment_hash(&self, hash: &str) -> (found: Option<&MessageAttachment>)
        ensures
            found_view(found) == self@.read_by_hash(hash@),
    {
        let i = self.find_hash(hash);
        if i < self.rows.len() {
            Some(&self.rows[i])
        } else {
            None
        }
    }

    /// Ingests `content` and returns the identifier that stands for it.
    pub fn ingest(&mut self, kind: AttachmentType, origin: String, content: String) -> (outcome:
        Result<i64, AppError>)
        requires
            old(self)@.wf(),
        ensures
            final(self)@ == old(self)@.ingest(kind, origin@, content@).store,
            outcome == old(self)@.ingest(kind, origin@, content@).outcome,
            final(self)@.wf(),
    {
        let candidate = MessageAttachment::fresh(kind, origin, content);
        let existing = self.read_by_attachment_hash(candidate.attachment_hash.as_str());
        let candidate = match plan_ingest(existing, candidate) {
            IngestPlan::Reuse(id) => {
                return Ok(id);
            },
            IngestPlan::Create(candidate) => candidate,
        };
        if self.next_id == i64::MAX {
            return Err(AppError::Persistence);
        }
        let id = self.next_id;
        let ghost before = self@;
        let ghost row = before.new_row(kind, candidate.attachment_url@, candidate.attachment_content@);
        proof {
            lemma_index_of_hash(before.rows, row.attachment_hash, 0);
        }
        let created = MessageAttachment { id, ..candidate };
        assert(created.deep_view() == row);
        self.rows.push(created);
        self.next_id = id + 1;
        proof {
            assert(self@.rows =~= before.rows.push(row));
        }
        Ok(id)
    }

    /// Ingests a payload that the caller holds, under the kind that the
    /// caller declares.
    pub fn ingest_inline(&mut self, content: String, origin: String, declared: AttachmentType)
        -> (outcome: Result<i64, AppError>)
        requires
            old(self)@.wf(),
        ensures
            final(self)@ == old(self)@.ingest(declared, origin@, content@).store,
            outcome == old(self)@.ingest(declared, origin@, content@).outcome,
            final(self)@.wf(),
    {
        self.ingest(declared, origin, content)
    }

    /// Ingests the file at `path`. `file` is what the file holds, or `None`
    /// where there is no such file.
    pub fn ingest_from_path(&mut self, path: &str, file: Option<&[u8]>) -> (outcome: Result<
        i64,
        AppError,
    >)
        requires
            old(self)@.wf(),
        ensures
            final(self)@ == old(self)@.ingest_file(path@, file_bytes(file)).store,
            outcome == old(self)@.ingest_file(path@, file_bytes(file)).outcome,
            final(self)@.wf(),
    {
        match file {
            None => Err(AppError::NotFound),
            Some(bytes) => {
                let mime = mime_of_path(path);
                match prepare_file_content(mime.as_str(), bytes) {
                    Ok((kind, content)) => self.ingest(kind, String::from_str(path), content),
                    Err(e) => Err(e),
                }
            },
        }
    }
}

impl StoreView {
    /// What the command for an inline payload does: it ingests the
    /// payload under the kind that the number `kind` stands for; a number
    /// that stands for no kind is refused as unsupported, and the store stays
    /// as it is.
    pub open spec fn add_content(self, content: Seq<char>, name: Seq<char>, kind: i64)
        -> Ingestion {
        match kind_of_code(kind) {
            Some(kind) => self.ingest(kind, name, content),
            None => Ingestion { store: self, outcome: Err(AppError::UnsupportedType) },
        }
    }

    /// What the command for a file does.
    pub open spec fn add_by_url(self, url: Seq<char>, file: Option<Seq<u8>>) -> Ingestion {
        self.ingest_file(url, file)
    }

    /// What the command that takes either does: a file where a URL is
    /// given; else an inline payload where content, name and kind are all
    /// given; else nothing, and the arguments are refused.
    pub open spec fn add(
        self,
        url: Option<Seq<char>>,
        file: Option<Seq<u8>>,
        content: Option<Seq<char>>,
        name: Option<Seq<char>>,
        kind: Option<i64>,
    ) -> Ingestion {
        match url {
            Some(url) => self.add_by_url(url, file),
            None => match (content, name, kind) {
                (Some(content), Some(name), Some(kind)) => self.add_content(content, name, kind),
                _ => Ingestion { store: self, outcome: Err(AppError::InvalidArguments) },
            },
        }
    }
}

/// The outcome of an ingestion as the result of a command.
pub open spec fn command_result(outcome: Result<i64, AppError>) -> Result<
    AttachmentResult,
    AppError,
> {
    match outcome {
        Ok(id) => Ok(AttachmentResult { attachment_id: id }),
        Err(e) => Err(e),
    }
}

fn to_result(outcome: Result<i64, AppError>) -> (result: Result<AttachmentResult, AppError>)
    ensures
        result == command_result(outcome),
{
    match outcome {
        Ok(id) => Ok(AttachmentResult { attachment_id: id }),
        Err(e) => Err(e),
    }
}

/// Stores the inline payload `file_content` under the name `file_name`.
/// `attachment_type` is the number of its kind.
pub fn add_attachment_content(
    store: &mut AttachmentStore,
    file_content: String,
    file_name: String,
    attachment_type: i64,
) -> (result: Result<AttachmentResult, AppError>)
    requires
        old(store)@.wf(),
    ensures
        final(store)@ == old(store)@.add_content(
            file_content@,
            file_name@,
            attachment_type,
        ).store,
        result == command_result(
            old(store)@.add_content(file_content@, file_name@, attachment_type).outcome,
        ),
        final(store)@.wf(),
{
    match AttachmentType::from_code(attachment_type) {
        Ok(kind) => to_result(store.ingest_inline(file_content, file_name, kind)),
        Err(e) => Err(e),
    }
}

/// Stores the file at `file_url`. `file` is what the file holds, or `None`
/// where there is no such file.
pub fn add_attachment_by_url(store: &mut AttachmentStore, file_url: String, file: Option<&[u8]>)
    -> (result: Result<AttachmentResult, AppError>)
    requires
        old(store)@.wf(),
    ensures
        final(store)@ == old(store)@.add_by_url(file_url@, file_bytes(file)).store,
        result == command_result(old(store)@.add_by_url(file_url@, file_bytes(file)).outcome),
        final(store)@.wf(),
{
    to_result(store.ingest_from_path(file_url.as_str(), file))
}

/// Stores a file, where `file_url` names one, and else the inline payload
/// that `file_content`, `file_name` and `attachment_type` describe.
pub fn add_attachment(
    store: &mut AttachmentStore,
    file_url: Option<String>,
    file: Option<&[u8]>,
    file_content: Option<String>,
    file_name: Option<String>,
    attachment_type: Option<i64>,
) -> (result: Result<AttachmentResult, AppError>)
    requires
        old(store)@.wf(),
    ensures
        final(store)@ == old(store)@.add(
            file_url.deep_view(),
            file_bytes(file),
            file_content.deep_view(),
            file_name.deep_view(),
            attachment_type,
        ).store,
        result == command_result(
            old(store)@.add(
                file_url.deep_view(),
                file_bytes(file),
                file_content.deep_view(),
                file_name.deep_view(),
                attachment_type,
            ).outcome,
        ),
        final(store)@.wf(),
{
    match file_url {
        Some(url) => add_attachment_by_url(store, url, file),
        None => match (file_content, file_name, attachment_type) {
            (Some(content), Some(name), Some(kind)) => add_attachment_content(
                store,
                content,
                name,
                kind,
            ),
            _ => Err(AppError::InvalidArguments),
        },
    }
}

/// In a well-formed store a hash has one row or none.
pub proof fn lemma_rows_with_hash(rows: Seq<AttachmentView>, hash: Seq<char>)
    requires
        forall|i: int, j: int|
            0 <= i < j < rows.len() ==> (#[trigger] rows[i]).attachment_hash != (
            #[trigger] rows[j]).attachment_hash,
    ensures
        rows_with_hash(rows, hash) == (if index_of_hash(rows, hash, 0) < rows.len() {
            1nat
        } else {
            0nat
        }),
    decreases rows.len(),
{
    lemma_index_of_hash(rows, hash, 0);
    if rows.len() > 0 {
        let front = rows.drop_last();
        lemma_rows_with_hash(front, hash);
        lemma_index_of_hash(front, hash, 0);
        let k = index_of_hash(front, hash, 0);
        let i = index_of_hash(rows, hash, 0);
        if k < front.len() {
            assert(front[k] == rows[k]);
            assert(rows[k].attachment_hash == hash);
            if i > k {
                assert(rows[k].attachment_hash != hash);
            }
        }
        if i < rows.len() - 1 {
            assert(front[i] == rows[i]);
            if k > i {
                assert(front[i].attachment_hash != hash);
            }
        }
    }
}

/// An ingestion keeps a store well formed.
pub proof fn lemma_ingest_keeps_wf(
    store: StoreView,
    kind: AttachmentType,
    origin: Seq<char>,
    content: Seq<char>,
)
    requires
        store.wf(),
    ensures
        store.ingest(kind, origin, content).store.wf(),
{
    lemma_index_of_hash(store.rows, content_digest(content), 0);
}

/// Dedup is idempotent: content that was ingested keeps its identifier
/// whenever it is ingested again, whatever kind and origin are given with
/// it; the second ingestion leaves the store as it is, and the store holds
/// exactly one row for the content.
pub proof fn law_ingest_is_idempotent(
    store: StoreView,
    kind: AttachmentType,
    origin: Seq<char>,
    again_kind: AttachmentType,
    again_origin: Seq<char>,
    content: Seq<char>,
)
    requires
        store.wf(),
    ensures
        store.ingest(kind, origin, content).outcome is Ok ==> {
            let first = store.ingest(kind, origin, content);
            let second = first.store.ingest(again_kind, again_origin, content);
            &&& second.outcome == first.outcome
            &&& second.store == first.store
            &&& rows_with_hash(first.store.rows, content_digest(content)) == 1
        },
{
    let hash = content_digest(content);
    let first = store.ingest(kind, origin, content);
    lemma_index_of_hash(store.rows, hash, 0);
    lemma_ingest_keeps_wf(store, kind, origin, content);
    lemma_index_of_hash(first.store.rows, hash, 0);
    lemma_rows_with_hash(first.store.rows, hash);
    let i = index_of_hash(store.rows, hash, 0);
    let k = index_of_hash(first.store.rows, hash, 0);
    if first.outcome is Ok {
        if i < store.rows.len() {
            assert(first.store == store);
        } else {
            let row = store.new_row(kind, origin, content);
            assert(first.store.rows == store.rows.push(row));
            assert(first.store.rows[store.rows.len() as int] == row);
            if k < store.rows.len() {
                assert(first.store.rows[k] == store.rows[k]);
            }
        }
    }
}

/// The hash of what is stored is the digest of what is stored: after an
/// ingestion, the row that stands for `content` has the digest of `content`
/// as its hash, and that is the digest of the row's own content; a row that
/// the ingestion created holds `content` itself.
pub proof fn law_hash_is_digest_of_content(
    store: StoreView,
    kind: AttachmentType,
    origin: Seq<char>,
    content: Seq<char>,
)
    requires
        store.wf(),
    ensures
        store.ingest(kind, origin, content).outcome matches Ok(id) ==> {
            let after = store.ingest(kind, origin, content).store;
            &&& after.read_by_hash(content_digest(content)) is Some
            &&& after.read_by_hash(content_digest(content))->0.id == id
            &&& after.read_by_hash(content_digest(content))->0.attachment_hash == content_digest(
                after.read_by_hash(content_digest(content))->0.attachment_content,
            )
            &&& store.read_by_hash(content_digest(content)) is None ==> after.read_by_hash(
                content_digest(content),
            )->0 == store.new_row(kind, origin, content)
        },
{
    let hash = content_digest(content);
    let first = store.ingest(kind, origin, content);
    lemma_index_of_hash(store.rows, hash, 0);
    lemma_ingest_keeps_wf(store, kind, origin, content);
    lemma_index_of_hash(first.store.rows, hash, 0);
    let i = index_of_hash(store.rows, hash, 0);
    let k = index_of_hash(first.store.rows, hash, 0);
    if first.outcome is Ok && i >= store.rows.len() {
        let row = store.new_row(kind, origin, content);
        assert(first.store.rows == store.rows.push(row));
        assert(first.store.rows[store.rows.len() as int] == row);
        if k < store.rows.len() {
            assert(first.store.rows[k] == store.rows[k]);
        }
    }
}

/// What is stored for an image file is its data URI, and the hash covers
/// the whole of it: the file's bytes are hashed in no other form.
pub proof fn law_image_hash_covers_data_uri(store: StoreView, path: Seq<char>, bytes: Seq<u8>)
    requires
        store.wf(),
    ensures
        kind_of_mime(guessed_mime(path)) == Some(AttachmentType::Image) && store.ingest_file(
            path,
            Some(bytes),
        ).outcome is Ok ==> {
            let uri = data_uri_head(guessed_mime(path))->0 + base64_standard(bytes);
            let after = store.ingest_file(path, Some(bytes)).store;
            &&& data_uri_head(guessed_mime(path)) is Some
            &&& after.read_by_hash(content_digest(uri)) is Some
            &&& after.read_by_hash(content_digest(uri))->0.id == store.ingest_file(
                path,
                Some(bytes),
            ).outcome->Ok_0
        },
{
    if kind_of_mime(guessed_mime(path)) == Some(AttachmentType::Image) && store.ingest_file(
        path,
        Some(bytes),
    ).outcome is Ok {
        let content = data_uri_head(guessed_mime(path))->0 + base64_standard(bytes);
        law_hash_is_digest_of_content(store, AttachmentType::Image, path, content);
    }
}

/// A well-formed store holds at most one row for each hash, and the hash
/// of every row is the digest of the row's content.
pub proof fn law_store_is_content_addressed(store: StoreView, hash: Seq<char>)
    requires
        store.wf(),
    ensures
        rows_with_hash(store.rows, hash) <= 1,
        forall|i: int|
            0 <= i < store.rows.len() ==> (#[trigger] store.rows[i]).attachment_hash
                == content_digest(store.rows[i].attachment_content),
{
    lemma_rows_with_hash(store.rows, hash);
}

} // verus!
