use ldk_node_store::migration::{
    migrate_deprecated_spendable_outputs, spend_delay_height, track_request_for, verify_tracked,
    DeprecatedOutputDecoder, DeprecatedSpendableOutput, MigrationError, OutputStatus,
    OutputTracker, TrackedOutput, DEPRECATED_SPENDABLE_OUTPUT_INFO_PERSISTENCE_PRIMARY_NAMESPACE,
    DEPRECATED_SPENDABLE_OUTPUT_INFO_PERSISTENCE_SECONDARY_NAMESPACE,
};
use ldk_node_store::store::{KvStore, StoreError};

const P: &str = DEPRECATED_SPENDABLE_OUTPUT_INFO_PERSISTENCE_PRIMARY_NAMESPACE;
const S: &str = DEPRECATED_SPENDABLE_OUTPUT_INFO_PERSISTENCE_SECONDARY_NAMESPACE;

enum Behaviour {
    Honest,
    Drops,
    OtherDelay,
    AlreadyBroadcast,
}

struct Tracker {
    height: u32,
    outputs: Vec<(Vec<u8>, OutputStatus)>,
    calls: usize,
    behaviour: Behaviour,
}

impl Tracker {
    fn new(height: u32, behaviour: Behaviour) -> Tracker {
        Tracker { height, outputs: Vec::new(), calls: 0, behaviour }
    }
}

impl OutputTracker for Tracker {
    fn current_best_height(&self) -> u32 {
        self.height
    }

    fn track_spendable_outputs(
        &mut self,
        descriptors: Vec<Vec<u8>>,
        _channel_id: Option<[u8; 32]>,
        force_respend: bool,
        delay_until_height: Option<u32>,
    ) -> Result<(), ()> {
        assert!(force_respend);
        self.calls += 1;
        for d in descriptors {
            let status = match self.behaviour {
                Behaviour::Honest => {
                    OutputStatus::PendingInitialBroadcast { delayed_until_height: delay_until_height }
                },
                Behaviour::Drops => continue,
                Behaviour::OtherDelay => OutputStatus::PendingInitialBroadcast {
                    delayed_until_height: delay_until_height.map(|h| h + 1),
                },
                Behaviour::AlreadyBroadcast => OutputStatus::Broadcast,
            };
            self.outputs.retain(|(x, _)| *x != d);
            self.outputs.push((d, status));
        }
        Ok(())
    }

    fn tracked_outputs(&self) -> Vec<TrackedOutput> {
        self.outputs
            .iter()
            .map(|(d, s)| TrackedOutput { descriptor: d.clone(), status: *s })
            .collect()
    }
}

struct Decoder;

impl DeprecatedOutputDecoder for Decoder {
    fn decode(&self, bytes: &Vec<u8>) -> Option<DeprecatedSpendableOutput> {
        if bytes.first() == Some(&0xde) {
            Some(DeprecatedSpendableOutput { descriptor: bytes[1..].to_vec(), channel_id: Some([3u8; 32]) })
        } else {
            None
        }
    }
}

#[test]
fn migration_happy_path() {
    let mut store = KvStore::new();
    store.write(P, S, "output_a", &vec![0xde, 1, 2, 3]).unwrap();
    store.write("payments", "", "keep", &vec![5u8]).unwrap();
    let mut tracker = Tracker::new(800000, Behaviour::Honest);
    migrate_deprecated_spendable_outputs(&mut tracker, &Decoder, &mut store).outcome.unwrap();
    assert_eq!(tracker.outputs.len(), 1);
    assert_eq!(tracker.outputs[0].0, vec![1u8, 2, 3]);
    assert_eq!(
        tracker.outputs[0].1,
        OutputStatus::PendingInitialBroadcast { delayed_until_height: Some(800002) }
    );
    assert!(matches!(store.read(P, S, "output_a"), Err(StoreError::NotFound)));
    assert!(store.list(P, S).unwrap().is_empty());
    assert_eq!(store.read("payments", "", "keep").unwrap(), vec![5u8]);
}

#[test]
fn migration_report_lists_what_was_moved() {
    let mut store = KvStore::new();
    store.write(P, S, "output_a", &vec![0xde, 1, 2, 3]).unwrap();
    let mut tracker = Tracker::new(800000, Behaviour::Honest);
    let report = migrate_deprecated_spendable_outputs(&mut tracker, &Decoder, &mut store);
    assert!(report.outcome.is_ok());
    assert_eq!(report.best_height, 800000);
    assert_eq!(report.migrated.len(), 1);
    let m = &report.migrated[0];
    assert_eq!(m.key, "output_a");
    assert_eq!(m.payload, vec![0xde, 1, 2, 3]);
    assert_eq!(m.descriptor, vec![1u8, 2, 3]);
    assert_eq!(m.delay_until_height, 800002);
    assert_eq!(m.observed.len(), 1);
}

#[test]
fn migration_failure_keeps_later_records() {
    let mut store = KvStore::new();
    store.write(P, S, "good", &vec![0xde, 1]).unwrap();
    store.write(P, S, "bad", &vec![0x00]).unwrap();
    store.write(P, S, "late", &vec![0xde, 2]).unwrap();
    let mut tracker = Tracker::new(5, Behaviour::Honest);
    let report = migrate_deprecated_spendable_outputs(&mut tracker, &Decoder, &mut store);
    assert!(matches!(report.outcome, Err(MigrationError::DeserializationFailed { .. })));
    assert!(store.read(P, S, "bad").is_ok());
    let moved: Vec<String> = report.migrated.iter().map(|m| m.key.clone()).collect();
    for k in ["good", "late"] {
        assert_eq!(store.read(P, S, k).is_ok(), !moved.contains(&k.to_string()));
    }
    assert_eq!(tracker.calls, moved.len());
}

#[test]
fn migration_of_several_records() {
    let mut store = KvStore::new();
    for i in 0..4u8 {
        store.write(P, S, &format!("o{}", i), &vec![0xde, i]).unwrap();
    }
    let mut tracker = Tracker::new(10, Behaviour::Honest);
    migrate_deprecated_spendable_outputs(&mut tracker, &Decoder, &mut store).outcome.unwrap();
    assert_eq!(tracker.calls, 4);
    assert_eq!(tracker.outputs.len(), 4);
    assert!(store.list(P, S).unwrap().is_empty());
}

#[test]
fn migration_idempotence() {
    let mut store = KvStore::new();
    store.write(P, S, "output_a", &vec![0xde, 7]).unwrap();
    let mut tracker = Tracker::new(800000, Behaviour::Honest);
    migrate_deprecated_spendable_outputs(&mut tracker, &Decoder, &mut store).outcome.unwrap();
    assert_eq!(tracker.calls, 1);
    migrate_deprecated_spendable_outputs(&mut tracker, &Decoder, &mut store).outcome.unwrap();
    assert_eq!(tracker.calls, 1);
    assert_eq!(tracker.outputs.len(), 1);
}

#[test]
fn migration_with_nothing_to_move_makes_no_calls() {
    let mut store = KvStore::new();
    let mut tracker = Tracker::new(u32::MAX, Behaviour::Honest);
    migrate_deprecated_spendable_outputs(&mut tracker, &Decoder, &mut store).outcome.unwrap();
    assert_eq!(tracker.calls, 0);
}

#[test]
fn migration_abort_when_tracker_drops_output() {
    let mut store = KvStore::new();
    store.write(P, S, "output_a", &vec![0xde, 1]).unwrap();
    let mut tracker = Tracker::new(800000, Behaviour::Drops);
    let r = migrate_deprecated_spendable_outputs(&mut tracker, &Decoder, &mut store).outcome;
    assert!(matches!(r, Err(MigrationError::MigrationFailed { ref key }) if key == "output_a"));
    assert_eq!(store.read(P, S, "output_a").unwrap(), vec![0xde, 1]);
}

#[test]
fn migration_abort_on_mismatched_delay() {
    let mut store = KvStore::new();
    store.write(P, S, "output_a", &vec![0xde, 1]).unwrap();
    let mut tracker = Tracker::new(800000, Behaviour::OtherDelay);
    let r = migrate_deprecated_spendable_outputs(&mut tracker, &Decoder, &mut store).outcome;
    assert!(matches!(r, Err(MigrationError::MigrationFailed { .. })));
    assert_eq!(store.read(P, S, "output_a").unwrap(), vec![0xde, 1]);
}

#[test]
fn migration_abort_on_broadcast_status() {
    let mut store = KvStore::new();
    store.write(P, S, "output_a", &vec![0xde, 1]).unwrap();
    let mut tracker = Tracker::new(5, Behaviour::AlreadyBroadcast);
    let r = migrate_deprecated_spendable_outputs(&mut tracker, &Decoder, &mut store).outcome;
    assert!(matches!(r, Err(MigrationError::MigrationFailed { .. })));
    assert!(store.read(P, S, "output_a").is_ok());
}

#[test]
fn migration_stops_on_undecodable_record() {
    let mut store = KvStore::new();
    store.write(P, S, "bad", &vec![0x00, 1]).unwrap();
    let mut tracker = Tracker::new(5, Behaviour::Honest);
    let r = migrate_deprecated_spendable_outputs(&mut tracker, &Decoder, &mut store).outcome;
    assert!(matches!(r, Err(MigrationError::DeserializationFailed { ref key }) if key == "bad"));
    assert_eq!(tracker.calls, 0);
    assert!(store.read(P, S, "bad").is_ok());
}

#[test]
fn migration_refuses_height_without_room() {
    let mut store = KvStore::new();
    store.write(P, S, "output_a", &vec![0xde, 1]).unwrap();
    let mut tracker = Tracker::new(u32::MAX - 1, Behaviour::Honest);
    let r = migrate_deprecated_spendable_outputs(&mut tracker, &Decoder, &mut store).outcome;
    assert!(matches!(r, Err(MigrationError::HeightOverflow)));
    assert!(store.read(P, S, "output_a").is_ok());
}

#[test]
fn spend_delay_is_two_blocks() {
    assert_eq!(spend_delay_height(800000), 800002);
    assert_eq!(spend_delay_height(u32::MAX - 2), u32::MAX);
}

#[test]
fn verify_tracked_looks_at_first_match() {
    let pending = |h| OutputStatus::PendingInitialBroadcast { delayed_until_height: h };
    let outs = vec![
        TrackedOutput { descriptor: vec![1], status: pending(Some(7)) },
        TrackedOutput { descriptor: vec![2], status: pending(Some(9)) },
        TrackedOutput { descriptor: vec![2], status: pending(Some(7)) },
    ];
    assert!(verify_tracked(&vec![1], &outs, 7));
    assert!(!verify_tracked(&vec![2], &outs, 7));
    assert!(verify_tracked(&vec![2], &outs, 9));
    assert!(!verify_tracked(&vec![3], &outs, 7));
    let none = vec![TrackedOutput { descriptor: vec![1], status: pending(None) }];
    assert!(!verify_tracked(&vec![1], &none, 7));
}

#[test]
fn track_request_batches_two_blocks_ahead() {
    let output = DeprecatedSpendableOutput { descriptor: vec![4u8, 5], channel_id: Some([1u8; 32]) };
    let req = track_request_for(&output, 800000);
    assert_eq!(req.descriptors, vec![vec![4u8, 5]]);
    assert_eq!(req.channel_id, Some([1u8; 32]));
    assert!(req.force_respend);
    assert_eq!(req.delay_until_height, Some(800002));
}
