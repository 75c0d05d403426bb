//! The transcript store: one append-only record per session.
//!
//! A record is a document, a row of turns in their recorded form, in which
//! each turn names its role by a tag. Loading reads the document back into
//! turns and refuses one that it cannot read; it never takes such a record
//! for an empty transcript. Appending composes the whole new document from
//! what was loaded and replaces the record with it in one step, so a record
//! is either the old one or the new one.

use vstd::prelude::*;
use crate::session::SessionKey;
use crate::turn::Role;
use crate::turn::Turn;
use crate::turn::TurnView;
use crate::turn::role_of;
use crate::turn::tag_of;
use crate::turn::lemma_tag_names_its_role;

verus! {

/// A turn as it is recorded: the role by its tag.
#[derive(Clone, Debug, PartialEq, Eq)]
pub struct StoredTurn {
    pub role: String,
    pub content: String,
    pub tokens: u64,
}

/// A recorded turn as a mathematical value.
pub struct StoredTurnView {
    pub role: Seq<char>,
    pub content: Seq<char>,
    pub tokens: nat,
}

impl View for StoredTurn {
    type V = StoredTurnView;

    open spec fn view(&self) -> StoredTurnView {
        StoredTurnView { role: self.role@, content: self.content@, tokens: self.tokens as nat }
    }
}

impl DeepView for StoredTurn {
    type V = StoredTurnView;

    open spec fn deep_view(&self) -> StoredTurnView {
        self@
    }
}

/// What is kept for a session that has a record.
#[derive(Clone, Debug, PartialEq, Eq)]
pub enum StoredRecord {
    /// Text that is not a document.
    Malformed,
    /// A document, oldest turn first.
    Document(Vec<StoredTurn>),
}

/// A record as a mathematical value.
pub enum StoredRecordView {
    Malformed,
    Document(Seq<StoredTurnView>),
}

impl View for StoredRecord {
    type V = StoredRecordView;

    open spec fn view(&self) -> StoredRecordView {
        match self {
            StoredRecord::Malformed => StoredRecordView::Malformed,
            StoredRecord::Document(turns) => StoredRecordView::Document(turns.deep_view()),
        }
    }
}

impl DeepView for StoredRecord {
    type V = StoredRecordView;

    open spec fn deep_view(&self) -> StoredRecordView {
        self@
    }
}

/// Why a record could not be loaded.
#[derive(Clone, Copy, Debug, PartialEq, Eq, Structural)]
pub enum StoreError {
    /// The record is not a document.
    Malformed,
    /// The turn at this place of the document names no role.
    UnknownRole(usize),
}

/// The recorded form of a turn.
pub open spec fn recorded(turn: TurnView) -> StoredTurnView {
    StoredTurnView { role: tag_of(turn.role), content: turn.content, tokens: turn.tokens }
}

/// The turn that a recorded turn stands for, where its tag names a role.
pub open spec fn restored(stored: StoredTurnView) -> TurnView {
    TurnView { role: role_of(stored.role)->0, content: stored.content, tokens: stored.tokens }
}

/// The document that records a transcript.
pub open spec fn document_of(transcript: Seq<TurnView>) -> Seq<StoredTurnView> {
    Seq::new(transcript.len(), |i: int| recorded(transcript[i]))
}

/// Whether every turn of a document names a role.
pub open spec fn is_transcript(document: Seq<StoredTurnView>) -> bool {
    forall|i: int| 0 <= i < document.len() ==> role_of((#[trigger] document[i]).role) is Some
}

/// The transcript that a document records.
pub open spec fn transcript_of(document: Seq<StoredTurnView>) -> Seq<TurnView> {
    Seq::new(document.len(), |i: int| restored(document[i]))
}

/// Whether `at` is the first place of the document whose turn names no role.
pub open spec fn is_first_unknown_role(document: Seq<StoredTurnView>, at: int) -> bool {
    &&& 0 <= at < document.len()
    &&& role_of(document[at].role) is None
    &&& forall|i: int| 0 <= i < at ==> role_of((#[trigger] document[i]).role) is Some
}

/// What reading a document gives: its transcript, or the first place that
/// names no role.
pub open spec fn decoded(document: Seq<StoredTurnView>) -> Result<Seq<TurnView>, StoreError> {
    if is_transcript(document) {
        Ok(transcript_of(document))
    } else {
        Err(StoreError::UnknownRole((choose|at: int| is_first_unknown_role(document, at)) as usize))
    }
}

/// What loading gives for a session: an empty transcript where it has no
/// record, a failure where its record is not a document or names an unknown
/// role, and else the transcript that the document records.
pub open spec fn loaded(record: Option<StoredRecordView>) -> Result<Seq<TurnView>, StoreError> {
    match record {
        None => Ok(Seq::empty()),
        Some(StoredRecordView::Malformed) => Err(StoreError::Malformed),
        Some(StoredRecordView::Document(document)) => decoded(document),
    }
}

/// The record that is kept for `key`, if there is one.
pub open spec fn record_in(records: Map<SessionKey, StoredRecordView>, key: SessionKey) -> Option<
    StoredRecordView,
> {
    if records.dom().contains(key) {
        Some(records[key])
    } else {
        None
    }
}

/// The records after `added` was appended for `key`: where the session's
/// transcript can be loaded, its record becomes the document of that
/// transcript followed by `added`; where it cannot, nothing changes.
pub open spec fn after_append(
    records: Map<SessionKey, StoredRecordView>,
    key: SessionKey,
    added: Seq<TurnView>,
) -> Map<SessionKey, StoredRecordView> {
    match loaded(record_in(records, key)) {
        Ok(transcript) => records.insert(
            key,
            StoredRecordView::Document(document_of(transcript + added)),
        ),
        Err(_) => records,
    }
}

/// The view of what a load returned.
pub open spec fn outcome_view(outcome: Result<Vec<Turn>, StoreError>) -> Result<
    Seq<TurnView>,
    StoreError,
> {
    match outcome {
        Ok(transcript) => Ok(transcript.deep_view()),
        Err(e) => Err(e),
    }
}

/// What a record's text and the attempt to parse it amount to: no record
/// where the text is empty, a malformed record where text that is not empty
/// did not parse, and else the document that was parsed.
pub open spec fn record_read(text: Seq<char>, parsed: Option<Seq<StoredTurnView>>) -> Option<
    StoredRecordView,
> {
    if text.len() == 0 {
        None
    } else {
        match parsed {
            Some(document) => Some(StoredRecordView::Document(document)),
            None => Some(StoredRecordView::Malformed),
        }
    }
}

/// A document has at most one first place that names no role.
pub proof fn lemma_first_unknown_role_is_unique(document: Seq<StoredTurnView>, a: int, b: int)
    requires
        is_first_unknown_role(document, a),
        is_first_unknown_role(document, b),
    ensures
        a == b,
{
    if a < b {
        assert(role_of(document[a].role) is Some);
    } else if b < a {
        assert(role_of(document[b].role) is Some);
    }
}

/// Reading the document of a transcript gives the transcript back.
pub proof fn lemma_document_round_trip(transcript: Seq<TurnView>)
    ensures
        is_transcript(document_of(transcript)),
        decoded(document_of(transcript)) == Ok::<Seq<TurnView>, StoreError>(transcript),
{
    let document = document_of(transcript);
    assert forall|i: int| 0 <= i < document.len() implies role_of((#[trigger] document[i]).role)
        == Some(transcript[i].role) by {
        lemma_tag_names_its_role(transcript[i].role);
    }
    assert(transcript_of(document) =~= transcript);
}

/// A record that is not a document, or a document with a turn that names no
/// role, makes loading fail: it is never taken for an empty transcript.
pub proof fn lemma_bad_record_fails_to_load(record: StoredRecordView)
    requires
        record is Malformed || !is_transcript(record->Document_0),
    ensures
        loaded(Some(record)) is Err,
{
}

/// Text that is not empty and did not parse is a record that fails to load:
/// it is never taken for no record, nor for an empty transcript.
pub proof fn lemma_unparsed_text_fails_to_load(text: Seq<char>)
    requires
        text.len() > 0,
    ensures
        loaded(record_read(text, None)) == Err::<Seq<TurnView>, StoreError>(StoreError::Malformed),
{
}

/// After turns are appended for a session whose transcript can be loaded,
/// loading gives the old transcript followed by those turns; every other
/// session's record is as it was.
pub proof fn lemma_append_then_load(
    records: Map<SessionKey, StoredRecordView>,
    key: SessionKey,
    added: Seq<TurnView>,
)
    requires
        loaded(record_in(records, key)) is Ok,
    ensures
        loaded(record_in(after_append(records, key, added), key)) == Ok::<
            Seq<TurnView>,
            StoreError,
        >(loaded(record_in(records, key))->Ok_0 + added),
        forall|other: SessionKey|
            other != key ==> #[trigger] record_in(after_append(records, key, added), other)
                == record_in(records, other),
{
    let transcript = loaded(record_in(records, key))->Ok_0;
    lemma_document_round_trip(transcript + added);
}

/// After turns are appended for a session that has no record yet, loading
/// gives exactly those turns, in their order.
pub proof fn lemma_first_append_then_load(
    records: Map<SessionKey, StoredRecordView>,
    key: SessionKey,
    added: Seq<TurnView>,
)
    requires
        loaded(record_in(records, key)) == Ok::<Seq<TurnView>, StoreError>(Seq::empty()),
    ensures
        loaded(record_in(after_append(records, key, added), key)) == Ok::<
            Seq<TurnView>,
            StoreError,
        >(added),
{
    lemma_append_then_load(records, key, added);
    assert(Seq::<TurnView>::empty() + added =~= added);
}

/// Two appends for one session, one after the other, accumulate: the
/// transcript loaded afterwards is the first one, then what the first append
/// added, then what the second added. Nothing that was there is lost.
pub proof fn lemma_appends_accumulate(
    records: Map<SessionKey, StoredRecordView>,
    key: SessionKey,
    first: Seq<TurnView>,
    second: Seq<TurnView>,
)
    requires
        loaded(record_in(records, key)) is Ok,
    ensures
        loaded(
            record_in(after_append(after_append(records, key, first), key, second), key),
        ) == Ok::<Seq<TurnView>, StoreError>(
            loaded(record_in(records, key))->Ok_0 + first + second,
        ),
{
    lemma_append_then_load(records, key, first);
    lemma_append_then_load(after_append(records, key, first), key, second);
}

/// A failed append changes no record.
pub proof fn lemma_failed_append_changes_nothing(
    records: Map<SessionKey, StoredRecordView>,
    key: SessionKey,
    added: Seq<TurnView>,
)
    requires
        loaded(record_in(records, key)) is Err,
    ensures
        after_append(records, key, added) == records,
{
}

impl StoredTurn {
    /// The recorded form of `turn`.
    pub fn record(turn: &Turn) -> (stored: StoredTurn)
        ensures
            stored@ == recorded(turn@),
    {
        StoredTurn { role: turn.role.tag(), content: turn.content.clone(), tokens: turn.tokens }
    }

    /// The turn that this recorded turn stands for: `None` where its tag
    /// names no role.
    pub fn restore(&self) -> (turn: Option<Turn>)
        ensures
            turn is Some <==> role_of(self@.role) is Some,
            turn matches Some(t) ==> t@ == restored(self@),
    {
        match Role::from_tag(self.role.as_str()) {
            Some(role) => Some(Turn { role, content: self.content.clone(), tokens: self.tokens }),
            None => None,
        }
    }

    /// A copy of this recorded turn.
    pub fn duplicate(&self) -> (stored: StoredTurn)
        ensures
            stored == *self,
    {
        StoredTurn { role: self.role.clone(), content: self.content.clone(), tokens: self.tokens }
    }
}

/// Records a transcript as a document.
pub fn encode_transcript(transcript: &Vec<Turn>) -> (document: Vec<StoredTurn>)
    ensures
        document.deep_view() == document_of(transcript.deep_view()),
{
    let mut document: Vec<StoredTurn> = Vec::new();
    let mut i: usize = 0;
    while i < transcript.len()
        invariant
            0 <= i <= transcript.len(),
            document.len() == i,
            forall|k: int| 0 <= k < i ==> (#[trigger] document[k])@ == recorded(transcript[k]@),
        decreases transcript.len() - i,
    {
        document.push(StoredTurn::record(&transcript[i]));
        i = i + 1;
    }
    assert(document.deep_view() =~= document_of(transcript.deep_view()));
    document
}

/// Reads a document back into a transcript. It fails at the first turn
/// whose tag names no role, and on no other document.
pub fn decode_document(document: &Vec<StoredTurn>) -> (outcome: Result<Vec<Turn>, StoreError>)
    ensures
        outcome_view(outcome) == decoded(document.deep_view()),
        outcome is Ok <==> is_transcript(document.deep_view()),
{
    let ghost d = document.deep_view();
    let mut transcript: Vec<Turn> = Vec::new();
    let mut i: usize = 0;
    while i < document.len()
        invariant
            d == document.deep_view(),
            0 <= i <= document.len(),
            transcript.len() == i,
            forall|k: int| 0 <= k < i ==> role_of((#[trigger] d[k]).role) is Some,
            forall|k: int| 0 <= k < i ==> (#[trigger] transcript[k])@ == restored(d[k]),
        decreases document.len() - i,
    {
        match document[i].restore() {
            Some(turn) => {
                transcript.push(turn);
            },
            None => {
                proof {
                    assert(d[i as int] == document[i as int]@);
                    assert(is_first_unknown_role(d, i as int));
                    let chosen = choose|at: int| is_first_unknown_role(d, at);
                    lemma_first_unknown_role_is_unique(d, i as int, chosen);
                }
                return Err(StoreError::UnknownRole(i));
            },
        }
        proof {
            assert(d[i as int] == document[i as int]@);
        }
        i = i + 1;
    }
    assert(transcript.deep_view() =~= transcript_of(d));
    Ok(transcript)
}

impl StoredRecord {
    /// Makes the record out of its text and of what parsing that text gave
    /// (`None` where it did not parse). Empty text is no record at all; text
    /// that did not parse is a malformed record, not an empty one.
    pub fn read(text: &str, parsed: Option<Vec<StoredTurn>>) -> (record: Option<StoredRecord>)
        ensures
            record.deep_view() == record_read(text@, parsed.deep_view()),
    {
        if text.is_empty() {
            None
        } else {
            match parsed {
                Some(document) => Some(StoredRecord::Document(document)),
                None => Some(StoredRecord::Malformed),
            }
        }
    }

    /// A copy of this record.
    pub fn duplicate(&self) -> (record: StoredRecord)
        ensures
            record@ == self@,
    {
        match self {
            StoredRecord::Malformed => StoredRecord::Malformed,
            StoredRecord::Document(turns) => {
                let mut copy: Vec<StoredTurn> = Vec::new();
                let mut i: usize = 0;
                while i < turns.len()
                    invariant
                        0 <= i <= turns.len(),
                        copy.len() == i,
                        forall|k: int| 0 <= k < i ==> #[trigger] copy[k] == turns[k],
                    decreases turns.len() - i,
                {
                    copy.push(turns[i].duplicate());
                    i = i + 1;
                }
                assert(copy.deep_view() =~= turns.deep_view());
                StoredRecord::Document(copy)
            },
        }
    }

    /// Loads the transcript of a session from its record, if it has one.
    pub fn load(record: Option<&StoredRecord>) -> (outcome: Result<Vec<Turn>, StoreError>)
        ensures
            outcome_view(outcome) == loaded(record.deep_view()),
    {
        match record {
            None => {
                let transcript: Vec<Turn> = Vec::new();
                assert(transcript.deep_view() =~= Seq::<TurnView>::empty());
                Ok(transcript)
            },
            Some(StoredRecord::Malformed) => Err(StoreError::Malformed),
            Some(StoredRecord::Document(document)) => decode_document(document),
        }
    }
}

/// One session's record in the store.
struct Entry {
    key: SessionKey,
    record: StoredRecord,
}

/// The records that a row of entries holds: each key with the record of the
/// first entry that has it.
spec fn records_of(entries: Seq<Entry>) -> Map<SessionKey, StoredRecordView>
    decreases entries.len(),
{
    if entries.len() == 0 {
        Map::empty()
    } else {
        records_of(entries.drop_first()).insert(entries.first().key, entries.first().record@)
    }
}

/// Whether `at` is the first place among the entries that has `key`.
spec fn is_first_with_key(entries: Seq<Entry>, key: SessionKey, at: int) -> bool {
    &&& 0 <= at < entries.len()
    &&& entries[at].key == key
    &&& forall|k: int| 0 <= k < at ==> (#[trigger] entries[k]).key != key
}

/// Whether no entry has `key`.
spec fn has_no_entry(entries: Seq<Entry>, key: SessionKey) -> bool {
    forall|k: int| 0 <= k < entries.len() ==> (#[trigger] entries[k]).key != key
}

/// The record of a key is that of the first entry that has the key.
proof fn lemma_record_of_first(entries: Seq<Entry>, key: SessionKey, at: int)
    requires
        is_first_with_key(entries, key, at),
    ensures
        record_in(records_of(entries), key) == Some(entries[at].record@),
    decreases entries.len(),
{
    if at > 0 {
        let rest = entries.drop_first();
        assert(entries[0].key != key);
        assert forall|k: int| 0 <= k < at - 1 implies (#[trigger] rest[k]).key != key by {
            assert(entries[k + 1].key != key);
        }
        lemma_record_of_first(rest, key, at - 1);
    }
}

/// A key that no entry has, has no record.
proof fn lemma_record_of_none(entries: Seq<Entry>, key: SessionKey)
    requires
        has_no_entry(entries, key),
    ensures
        record_in(records_of(entries), key) is None,
    decreases entries.len(),
{
    if entries.len() > 0 {
        let rest = entries.drop_first();
        assert(entries[0].key != key);
        assert forall|k: int| 0 <= k < rest.len() implies (#[trigger] rest[k]).key != key by {
            assert(entries[k + 1].key != key);
        }
        lemma_record_of_none(rest, key);
    }
}

/// Replacing the first entry of a key replaces that key's record and no
/// other.
proof fn lemma_records_after_update(entries: Seq<Entry>, at: int, entry: Entry)
    requires
        is_first_with_key(entries, entry.key, at),
    ensures
        records_of(entries.update(at, entry)) == records_of(entries).insert(
            entry.key,
            entry.record@,
        ),
    decreases entries.len(),
{
    let updated = entries.update(at, entry);
    let rest = entries.drop_first();
    if at == 0 {
        assert(updated.drop_first() =~= rest);
    } else {
        assert(entries[0].key != entry.key);
        assert forall|k: int| 0 <= k < at - 1 implies (#[trigger] rest[k]).key != entry.key by {
            assert(entries[k + 1].key != entry.key);
        }
        lemma_records_after_update(rest, at - 1, entry);
        assert(updated.drop_first() =~= rest.update(at - 1, entry));
    }
    assert(records_of(updated) =~= records_of(entries).insert(entry.key, entry.record@));
}

/// Adding an entry for a key that no entry has adds that key's record and
/// changes no other.
proof fn lemma_records_after_push(entries: Seq<Entry>, entry: Entry)
    requires
        has_no_entry(entries, entry.key),
    ensures
        records_of(entries.push(entry)) == records_of(entries).insert(entry.key, entry.record@),
    decreases entries.len(),
{
    let pushed = entries.push(entry);
    if entries.len() == 0 {
        assert(pushed.drop_first() =~= entries);
    } else {
        let rest = entries.drop_first();
        assert(entries[0].key != entry.key);
        assert forall|k: int| 0 <= k < rest.len() implies (#[trigger] rest[k]).key
            != entry.key by {
            assert(entries[k + 1].key != entry.key);
        }
        lemma_records_after_push(rest, entry);
        assert(pushed.drop_first() =~= rest.push(entry));
    }
    assert(records_of(pushed) =~= records_of(entries).insert(entry.key, entry.record@));
}

/// Transcript records held in memory, one for each session that has one.
pub struct TranscriptStore {
    entries: Vec<Entry>,
}

impl View for TranscriptStore {
    type V = Map<SessionKey, StoredRecordView>;

    closed spec fn view(&self) -> Map<SessionKey, StoredRecordView> {
        records_of(self.entries@)
    }
}

impl TranscriptStore {
    /// A store without records.
    pub fn new() -> (store: TranscriptStore)
        ensures
            store@ == Map::<SessionKey, StoredRecordView>::empty(),
    {
        TranscriptStore { entries: Vec::new() }
    }

    /// Where the first entry of `key` lies, if there is one.
    fn position(&self, key: SessionKey) -> (at: Option<usize>)
        ensures
            at matches Some(i) ==> is_first_with_key(self.entries@, key, i as int),
            at is None ==> has_no_entry(self.entries@, key),
    {
        let mut i: usize = 0;
        while i < self.entries.len()
            invariant
                0 <= i <= self.entries.len(),
                forall|k: int| 0 <= k < i ==> (#[trigger] self.entries[k]).key != key,
            decreases self.entries.len() - i,
        {
            if self.entries[i].key == key {
                return Some(i);
            }
            i = i + 1;
        }
        None
    }

    /// The record that is kept for `key`, if there is one.
    pub fn record(&self, key: SessionKey) -> (record: Option<StoredRecord>)
        ensures
            record.deep_view() == record_in(self@, key),
    {
        match self.position(key) {
            Some(i) => {
                proof {
                    lemma_record_of_first(self.entries@, key, i as int);
                }
                Some(self.entries[i].record.duplicate())
            },
            None => {
                proof {
                    lemma_record_of_none(self.entries@, key);
                }
                None
            },
        }
    }

    /// Keeps `record` for `key`, in place of what was kept for it before.
    /// No other session's record changes.
    pub fn put(&mut self, key: SessionKey, record: StoredRecord)
        ensures
            final(self)@ == old(self)@.insert(key, record@),
    {
        let entry = Entry { key, record };
        match self.position(key) {
            Some(i) => {
                proof {
                    lemma_records_after_update(self.entries@, i as int, entry);
                }
                self.entries.set(i, entry);
            },
            None => {
                proof {
                    lemma_records_after_push(self.entries@, entry);
                }
                self.entries.push(entry);
            },
        }
    }

    /// Loads the transcript of `key`: empty where the session has no record,
    /// a failure where its record cannot be read.
    pub fn load(&self, key: SessionKey) -> (outcome: Result<Vec<Turn>, StoreError>)
        ensures
            outcome_view(outcome) == loaded(record_in(self@, key)),
    {
        match self.position(key) {
            Some(i) => {
                proof {
                    lemma_record_of_first(self.entries@, key, i as int);
                }
                StoredRecord::load(Some(&self.entries[i].record))
            },
            None => {
                proof {
                    lemma_record_of_none(self.entries@, key);
                }
                StoredRecord::load(None)
            },
        }
    }

    /// Appends `added` to the transcript of `key`: loads the transcript,
    /// composes the document of it followed by `added`, and puts that document
    /// in the record's place. Where the transcript cannot be loaded, the
    /// append fails with the load's error and changes nothing.
    pub fn append(&mut self, key: SessionKey, added: &Vec<Turn>) -> (outcome: Result<
        (),
        StoreError,
    >)
        ensures
            final(self)@ == after_append(old(self)@, key, added.deep_view()),
            match loaded(record_in(old(self)@, key)) {
                Ok(_) => outcome is Ok,
                Err(e) => outcome == Err::<(), StoreError>(e),
            },
    {
        match self.load(key) {
            Ok(transcript) => {
                let mut extended = transcript;
                let ghost base = extended.deep_view();
                let mut i: usize = 0;
                while i < added.len()
                    invariant
                        0 <= i <= added.len(),
                        extended.len() == base.len() + i,
                        forall|k: int| 0 <= k < base.len() ==> (#[trigger] extended[k])@ == base[k],
                        forall|k: int|
                            0 <= k < i ==> (#[trigger] extended[base.len() + k])@ == added[k]@,
                    decreases added.len() - i,
                {
                    extended.push(added[i].duplicate());
                    i = i + 1;
                }
                proof {
                    assert forall|k: int| 0 <= k < extended.len() implies (
                    #[trigger] extended[k])@ == (base + added.deep_view())[k] by {
                        if k >= base.len() {
                            assert(extended[base.len() + (k - base.len())]@ == added[k
                                - base.len()]@);
                        }
                    }
                    assert(extended.deep_view() =~= base + added.deep_view());
                }
                self.put(key, StoredRecord::Document(encode_transcript(&extended)));
                Ok(())
            },
            Err(e) => Err(e),
        }
    }
}

} // verus!
