//! One-time relocation of legacy spendable-output records into an output
//! tracker: each record is handed to the tracker, read back, and removed from
//! the store only once the tracker holds it pending at the agreed height.
use crate::namespace::is_valid_component;
use crate::store::{copy_bytes, keys_in, lists_keys_of, KvStore, Location, StoreError};
use vstd::prelude::*;

verus! {

/// Primary namespace of the legacy spendable-output records.
pub const DEPRECATED_SPENDABLE_OUTPUT_INFO_PERSISTENCE_PRIMARY_NAMESPACE: &'static str = "spendable_outputs";

/// Secondary namespace of the legacy spendable-output records.
pub const DEPRECATED_SPENDABLE_OUTPUT_INFO_PERSISTENCE_SECONDARY_NAMESPACE: &'static str = "";

/// The primary namespace of the legacy records, as characters.
pub open spec fn deprecated_primary() -> Seq<char> {
    seq!['s', 'p', 'e', 'n', 'd', 'a', 'b', 'l', 'e', '_', 'o', 'u', 't', 'p', 'u', 't', 's']
}

/// Whether a location lies in the legacy records' namespace.
pub open spec fn is_deprecated_location(t: Location) -> bool {
    t.0 == deprecated_primary() && t.1 == Seq::<char>::empty()
}

/// A legacy record: an output the node may claim, and the channel it came from.
pub struct DeprecatedSpendableOutput {
    pub descriptor: Vec<u8>,
    pub channel_id: Option<[u8; 32]>,
}

/// Where the tracker stands with an output.
#[derive(Clone, Copy, Debug, PartialEq, Eq, Structural)]
pub enum OutputStatus {
    /// Not yet broadcast; held back until the given height, if any.
    PendingInitialBroadcast { delayed_until_height: Option<u32> },
    /// Any state after the first broadcast.
    Broadcast,
}

/// An output as the tracker holds it.
pub struct TrackedOutput {
    pub descriptor: Vec<u8>,
    pub status: OutputStatus,
}

/// The component that owns the outputs awaiting or undergoing their claim.
pub trait OutputTracker {
    /// Height of the best block the tracker knows of.
    fn current_best_height(&self) -> u32;

    /// Asks the tracker to track `descriptors`; `force_respend` overrides any
    /// state it already holds for them.
    fn track_spendable_outputs(
        &mut self,
        descriptors: Vec<Vec<u8>>,
        channel_id: Option<[u8; 32]>,
        force_respend: bool,
        delay_until_height: Option<u32>,
    ) -> Result<(), ()>;

    /// The outputs the tracker holds now.
    fn tracked_outputs(&self) -> Vec<TrackedOutput>;
}

/// The decoder of the legacy records' byte format.
pub trait DeprecatedOutputDecoder {
    /// The record held in `bytes`, or `None` where they do not decode.
    fn decode(&self, bytes: &Vec<u8>) -> Option<DeprecatedSpendableOutput>;
}

/// Why a migration stopped.
#[derive(Clone, Debug)]
pub enum MigrationError {
    /// The store refused an operation.
    Store(StoreError),
    /// The record under this key does not decode.
    DeserializationFailed { key: String },
    /// The tracker does not hold the record under this key as it should.
    MigrationFailed { key: String },
    /// The best height leaves no room for the spend delay.
    HeightOverflow,
}

/// The height at which migrated outputs are first spent: two blocks on, so
/// that they share one claiming transaction.
pub open spec fn spend_delay_spec(best_height: u32) -> int {
    best_height + 2
}

/// Index of the first outputs output with descriptor `d`, if any.
pub open spec fn is_first_with(outputs: Seq<TrackedOutput>, d: Seq<u8>, i: int) -> bool {
    &&& 0 <= i < outputs.len()
    &&& outputs[i].descriptor@ == d
    &&& forall|j: int| 0 <= j < i ==> (#[trigger] outputs[j]).descriptor@ != d
}

/// The first outputs output with descriptor `d` awaits its first broadcast,
/// held back until exactly `height`.
pub open spec fn tracked_as_pending(outputs: Seq<TrackedOutput>, d: Seq<u8>, height: u32) -> bool {
    exists|i: int|
        is_first_with(outputs, d, i) && (#[trigger] outputs[i]).status
            == (OutputStatus::PendingInitialBroadcast { delayed_until_height: Some(height) })
}

/// The height two blocks past `best_height`.
pub fn spend_delay_height(best_height: u32) -> (r: u32)
    requires
        best_height <= u32::MAX - 2,
    ensures
        r == spend_delay_spec(best_height),
{
    best_height + 2
}

/// Whether two byte strings are equal.
pub fn bytes_equal(a: &Vec<u8>, b: &Vec<u8>) -> (r: bool)
    ensures
        r == (a@ == b@),
{
    if a.len() != b.len() {
        return false;
    }
    let mut i: usize = 0;
    while i < a.len()
        invariant
            a@.len() == b@.len(),
            i <= a@.len(),
            forall|j: int| 0 <= j < i ==> a@[j] == b@[j],
        decreases a@.len() - i,
    {
        if a[i] != b[i] {
            return false;
        }
        i = i + 1;
    }
    assert(a@ =~= b@);
    true
}

/// Whether the tracker's outputs show `descriptor` pending at `height`: the
/// first output with that descriptor must exist and await its first broadcast
/// until exactly that height.
pub fn verify_tracked(descriptor: &Vec<u8>, outputs: &Vec<TrackedOutput>, height: u32) -> (r: bool)
    ensures
        r == tracked_as_pending(outputs@, descriptor@, height),
{
    let mut i: usize = 0;
    while i < outputs.len()
        invariant
            i <= outputs@.len(),
            forall|j: int| 0 <= j < i ==> (#[trigger] outputs@[j]).descriptor@ != descriptor@,
        decreases outputs@.len() - i,
    {
        if bytes_equal(&outputs[i].descriptor, descriptor) {
            assert(is_first_with(outputs@, descriptor@, i as int));
            let pending = match outputs[i].status {
                OutputStatus::PendingInitialBroadcast { delayed_until_height } => match delayed_until_height {
                    Some(h) => h == height,
                    None => false,
                },
                OutputStatus::Broadcast => false,
            };
            if !pending {
                assert forall|k: int| #[trigger] is_first_with(outputs@, descriptor@, k) implies k == i by {
                    if k < i {
                    } else if k > i {
                        assert(outputs@[i as int].descriptor@ == descriptor@);
                    }
                }
            }
            return pending;
        }
        i = i + 1;
    }
    assert forall|k: int| !#[trigger] is_first_with(outputs@, descriptor@, k) by {}
    false
}

/// A store with no legacy location left holds no key in the legacy
/// namespace pair: the state a successful migration leaves behind is the one
/// in which a migration has nothing to move.
pub proof fn lemma_second_run_is_noop(after_first: Map<Location, Seq<u8>>)
    requires
        forall|t: Location| is_deprecated_location(t) ==> !#[trigger] after_first.contains_key(t),
    ensures
        keys_in(after_first, deprecated_primary(), Seq::<char>::empty()).is_empty(),
{
    assert forall|k: Seq<char>|
        !#[trigger] keys_in(after_first, deprecated_primary(), Seq::<char>::empty()).contains(k) by {
        assert(is_deprecated_location((deprecated_primary(), Seq::<char>::empty(), k)));
    }
    assert(keys_in(after_first, deprecated_primary(), Seq::<char>::empty()) =~= Set::empty());
}

/// What the migration asks the tracker to do with one legacy output.
pub struct TrackRequest {
    pub descriptors: Vec<Vec<u8>>,
    pub channel_id: Option<[u8; 32]>,
    pub force_respend: bool,
    pub delay_until_height: Option<u32>,
}

/// The request for `output`: its descriptor alone, its channel, any earlier
/// state overridden, and held back until two blocks past `best_height`.
pub fn track_request_for(output: &DeprecatedSpendableOutput, best_height: u32) -> (r: TrackRequest)
    requires
        best_height <= u32::MAX - 2,
    ensures
        r.descriptors@.len() == 1,
        r.descriptors@[0]@ == output.descriptor@,
        r.channel_id == output.channel_id,
        r.force_respend,
        r.delay_until_height == Some(spend_delay_spec(best_height) as u32),
{
    TrackRequest {
        descriptors: vec![copy_bytes(&output.descriptor)],
        channel_id: output.channel_id,
        force_respend: true,
        delay_until_height: Some(spend_delay_height(best_height)),
    }
}

/// After a successful run, every legacy record the store held at the start
/// is gone, and was moved: handed to the tracker to wait until two blocks past
/// the best height, and read back pending at exactly that height.
pub proof fn lemma_successful_run_moved_every_record(
    start: Map<Location, Seq<u8>>,
    end: Map<Location, Seq<u8>>,
    best_height: u32,
    migrated: Seq<MigratedOutput>,
    key: Seq<char>,
)
    requires
        removed_exactly(start, end, migrated),
        forall|i: int| 0 <= i < migrated.len() ==> migrated_properly(start, best_height, #[trigger] migrated[i]),
        forall|t: Location| is_deprecated_location(t) ==> !#[trigger] end.contains_key(t),
        start.contains_key((deprecated_primary(), Seq::<char>::empty(), key)),
    ensures
        !end.contains_key((deprecated_primary(), Seq::<char>::empty(), key)),
        exists|i: int|
            0 <= i < migrated.len() && (#[trigger] migrated[i]).key@ == key && migrated[i].payload@
                == start[(deprecated_primary(), Seq::<char>::empty(), key)]
                && migrated[i].delay_until_height == spend_delay_spec(best_height) && tracked_as_pending(
                migrated[i].observed@,
                migrated[i].descriptor@,
                migrated[i].delay_until_height,
            ),
{
    let t = (deprecated_primary(), Seq::<char>::empty(), key);
    assert(is_deprecated_location(t));
    assert(!end.contains_key(t));
    let i = choose|i: int| 0 <= i < migrated.len() && (#[trigger] migrated[i]).key@ == t.2;
    assert(migrated_properly(start, best_height, migrated[i]));
}

proof fn lemma_deprecated_namespace_valid()
    ensures
        DEPRECATED_SPENDABLE_OUTPUT_INFO_PERSISTENCE_PRIMARY_NAMESPACE@ == deprecated_primary(),
        DEPRECATED_SPENDABLE_OUTPUT_INFO_PERSISTENCE_SECONDARY_NAMESPACE@ == Seq::<char>::empty(),
        is_valid_component(deprecated_primary()),
        is_valid_component(Seq::<char>::empty()),
{
    reveal_strlit("spendable_outputs");
    reveal_strlit("");
    assert(DEPRECATED_SPENDABLE_OUTPUT_INFO_PERSISTENCE_PRIMARY_NAMESPACE@ =~= deprecated_primary());
    assert(DEPRECATED_SPENDABLE_OUTPUT_INFO_PERSISTENCE_SECONDARY_NAMESPACE@ =~= Seq::<char>::empty());
}

/// One legacy record that the migration moved and removed, with what it saw.
pub struct MigratedOutput {
    /// The key the record was stored under.
    pub key: String,
    /// The bytes that were stored there.
    pub payload: Vec<u8>,
    /// The descriptor the decoder found in them.
    pub descriptor: Vec<u8>,
    /// The height the tracker was asked to hold the output back until.
    pub delay_until_height: u32,
    /// The tracker's outputs, read back after the request.
    pub observed: Vec<TrackedOutput>,
}

/// What a migration did: the best height it read once at the start, the
/// records it moved, in the order it moved them, and how it ended.
pub struct MigrationReport {
    pub best_height: u32,
    pub migrated: Vec<MigratedOutput>,
    pub outcome: Result<(), MigrationError>,
}

/// `m` was a legacy record of `start`, held back until two blocks past
/// `best_height`, and the tracker read back held its descriptor pending at
/// exactly that height.
pub open spec fn migrated_properly(
    start: Map<Location, Seq<u8>>,
    best_height: u32,
    m: MigratedOutput,
) -> bool {
    &&& start.contains_key((deprecated_primary(), Seq::<char>::empty(), m.key@))
    &&& start[(deprecated_primary(), Seq::<char>::empty(), m.key@)] == m.payload@
    &&& m.delay_until_height == spend_delay_spec(best_height)
    &&& tracked_as_pending(m.observed@, m.descriptor@, m.delay_until_height)
}

/// `end` is `start` without the legacy records listed in `migrated`, and
/// nothing else changed.
pub open spec fn removed_exactly(
    start: Map<Location, Seq<u8>>,
    end: Map<Location, Seq<u8>>,
    migrated: Seq<MigratedOutput>,
) -> bool {
    &&& forall|t: Location| #[trigger]
        end.contains_key(t) <==> start.contains_key(t) && !(is_deprecated_location(t) && exists|
            i: int,
        | 0 <= i < migrated.len() && (#[trigger] migrated[i]).key@ == t.2)
    &&& forall|t: Location| #[trigger] end.contains_key(t) ==> end[t] == start[t]
}

/// Moves every legacy spendable-output record into `tracker`, in the order the
/// store lists them. Each record is decoded, handed to the tracker to be spent
/// two blocks past the best height with any earlier state overridden, and
/// removed (not lazily) only once the tracker holds it pending at exactly that
/// height. The first record that fails stops the whole run and stays stored,
/// as do all records not yet reached; records migrated before it stay removed,
/// so a later run resumes there.
pub fn migrate_deprecated_spendable_outputs<T: OutputTracker, D: DeprecatedOutputDecoder>(
    tracker: &mut T,
    decoder: &D,
    store: &mut KvStore,
) -> (r: MigrationReport)
    requires
        old(store).wf(),
    ensures
        final(store).wf(),
        removed_exactly(old(store)@, final(store)@, r.migrated@),
        forall|i: int|
            0 <= i < r.migrated@.len() ==> migrated_properly(
                old(store)@,
                r.best_height,
                #[trigger] r.migrated@[i],
            ),
        forall|i: int, j: int|
            0 <= i < r.migrated@.len() && 0 <= j < r.migrated@.len() && i != j ==> (
            #[trigger] r.migrated@[i]).key@ != (#[trigger] r.migrated@[j]).key@,
        !(r.outcome matches Err(MigrationError::Store(_))),
        r.outcome is Ok ==> forall|t: Location|
            is_deprecated_location(t) ==> !#[trigger] final(store)@.contains_key(t),
        r.outcome matches Err(MigrationError::MigrationFailed { key }) ==> final(store)@.contains_key(
            (deprecated_primary(), Seq::<char>::empty(), key@),
        ),
        r.outcome matches Err(MigrationError::DeserializationFailed { key }) ==> final(store)@.contains_key((deprecated_primary(), Seq::<char>::empty(), key@)),
        r.outcome matches Err(MigrationError::HeightOverflow) ==> r.best_height > u32::MAX - 2,
        keys_in(old(store)@, deprecated_primary(), Seq::<char>::empty()).is_empty() ==> r.outcome is Ok
            && r.migrated@.len() == 0 && *final(tracker) == *old(tracker) && final(store)@ == old(
        store)@,
{
    let ghost p = deprecated_primary();
    let ghost s = Seq::<char>::empty();
    let ghost start = store@;
    proof {
        lemma_deprecated_namespace_valid();
    }
    let best_height = tracker.current_best_height();
    let mut migrated: Vec<MigratedOutput> = Vec::new();
    let keys = match store.list(
        DEPRECATED_SPENDABLE_OUTPUT_INFO_PERSISTENCE_PRIMARY_NAMESPACE,
        DEPRECATED_SPENDABLE_OUTPUT_INFO_PERSISTENCE_SECONDARY_NAMESPACE,
    ) {
        Ok(keys) => keys,
        Err(e) => {
            return MigrationReport { best_height, migrated, outcome: Err(MigrationError::Store(e)) };
        },
    };
    assert(removed_exactly(start, store@, migrated@));
    let mut idx: usize = 0;
    while idx < keys.len()
        invariant
            store.wf(),
            start == old(store)@,
            p == deprecated_primary(),
            s == Seq::<char>::empty(),
            DEPRECATED_SPENDABLE_OUTPUT_INFO_PERSISTENCE_PRIMARY_NAMESPACE@ == p,
            DEPRECATED_SPENDABLE_OUTPUT_INFO_PERSISTENCE_SECONDARY_NAMESPACE@ == s,
            is_valid_component(p),
            is_valid_component(s),
            lists_keys_of(start, p, s, keys@),
            idx <= keys@.len(),
            migrated@.len() == idx,
            forall|i: int| 0 <= i < idx ==> (#[trigger] migrated@[i]).key@ == keys@[i]@,
            forall|i: int|
                0 <= i < idx ==> migrated_properly(start, best_height, #[trigger] migrated@[i]),
            removed_exactly(start, store@, migrated@),
            idx == 0 ==> *tracker == *old(tracker),
        decreases keys@.len() - idx,
    {
        let key = &keys[idx];
        let ghost t = (p, s, key@);
        assert(keys_in(start, p, s).contains(key@));
        assert(start.contains_key(t));
        assert(!exists|j: int| 0 <= j < migrated@.len() && (#[trigger] migrated@[j]).key@ == t.2)
            by {
            assert forall|j: int| 0 <= j < migrated@.len() implies (
            #[trigger] migrated@[j]).key@ != t.2 by {
                assert(keys@[j]@ != keys@[idx as int]@);
            }
        }
        assert(store@.contains_key(t));
        proof {
            store.lemma_locations_valid(t);
        }
        let bytes = match store.read(
            DEPRECATED_SPENDABLE_OUTPUT_INFO_PERSISTENCE_PRIMARY_NAMESPACE,
            DEPRECATED_SPENDABLE_OUTPUT_INFO_PERSISTENCE_SECONDARY_NAMESPACE,
            key.as_str(),
        ) {
            Ok(bytes) => bytes,
            Err(e) => {
                return MigrationReport { best_height, migrated, outcome: Err(MigrationError::Store(e)) };
            },
        };
        let output = match decoder.decode(&bytes) {
            Some(output) => output,
            None => {
                return MigrationReport {
                    best_height,
                    migrated,
                    outcome: Err(MigrationError::DeserializationFailed { key: key.clone() }),
                };
            },
        };
        if best_height > u32::MAX - 2 {
            return MigrationReport { best_height, migrated, outcome: Err(MigrationError::HeightOverflow) };
        }
        let spend_delay = spend_delay_height(best_height);
        let request = track_request_for(&output, best_height);
        let _ = tracker.track_spendable_outputs(
            request.descriptors,
            request.channel_id,
            request.force_respend,
            request.delay_until_height,
        );
        let outputs = tracker.tracked_outputs();
        if !verify_tracked(&output.descriptor, &outputs, spend_delay) {
            return MigrationReport {
                best_height,
                migrated,
                outcome: Err(MigrationError::MigrationFailed { key: key.clone() }),
            };
        }
        let ghost before = store@;
        match store.remove(
            DEPRECATED_SPENDABLE_OUTPUT_INFO_PERSISTENCE_PRIMARY_NAMESPACE,
            DEPRECATED_SPENDABLE_OUTPUT_INFO_PERSISTENCE_SECONDARY_NAMESPACE,
            key.as_str(),
            false,
        ) {
            Ok(()) => {},
            Err(e) => {
                return MigrationReport { best_height, migrated, outcome: Err(MigrationError::Store(e)) };
            },
        }
        assert(store@ == before.remove(t));
        let ghost old_migrated = migrated@;
        migrated.push(
            MigratedOutput {
                key: key.clone(),
                payload: bytes,
                descriptor: output.descriptor,
                delay_until_height: spend_delay,
                observed: outputs,
            },
        );
        assert(migrated@[idx as int].key@ == t.2);
        assert forall|i: int| 0 <= i < idx + 1 implies (#[trigger] migrated@[i]).key@ == keys@[i]@ by {
            if i < idx {
                assert(migrated@[i] == old_migrated[i]);
            }
        }
        assert forall|i: int|
            0 <= i < idx + 1 implies migrated_properly(start, best_height, #[trigger] migrated@[i]) by {
            if i < idx {
                assert(migrated@[i] == old_migrated[i]);
            }
        }
        assert forall|u: Location| #[trigger]
            store@.contains_key(u) <==> start.contains_key(u) && !(is_deprecated_location(u)
                && exists|i: int| 0 <= i < migrated@.len() && (#[trigger] migrated@[i]).key@ == u.2) by {
            if u == t {
            } else if is_deprecated_location(u) && exists|i: int|
                0 <= i < migrated@.len() && (#[trigger] migrated@[i]).key@ == u.2 {
                let i = choose|i: int| 0 <= i < migrated@.len() && (#[trigger] migrated@[i]).key@ == u.2;
                assert(i != idx);
                assert(migrated@[i] == old_migrated[i]);
            } else if is_deprecated_location(u) && exists|i: int|
                0 <= i < old_migrated.len() && (#[trigger] old_migrated[i]).key@ == u.2 {
                let i = choose|i: int| 0 <= i < old_migrated.len() && (#[trigger] old_migrated[i]).key@ == u.2;
                assert(migrated@[i] == old_migrated[i]);
            }
        }
        idx = idx + 1;
    }
    proof {
        assert forall|a: int, b: int|
            0 <= a < migrated@.len() && 0 <= b < migrated@.len() && a != b implies (
            #[trigger] migrated@[a]).key@ != (#[trigger] migrated@[b]).key@ by {
            assert(keys@[a]@ != keys@[b]@);
        }
        assert forall|u: Location| is_deprecated_location(u) implies !#[trigger] store@.contains_key(u)
            by {
            if start.contains_key(u) {
                assert(keys_in(start, p, s).contains(u.2));
                let j = choose|j: int| 0 <= j < keys@.len() && #[trigger] keys@[j]@ == u.2;
                assert(migrated@[j].key@ == u.2);
            }
        }
        if keys_in(start, p, s).is_empty() {
            assert(keys@.len() == 0) by {
                if keys@.len() > 0 {
                    assert(keys_in(start, p, s).contains(keys@[0]@));
                }
            }
            assert(store@ =~= start);
        }
    }
    MigrationReport { best_height, migrated, outcome: Ok(()) }
}

} // verus!
