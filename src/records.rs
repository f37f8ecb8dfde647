//! Where each persisted record lives, and the codecs of the records that this
//! layer reads and writes itself: timestamps as big-endian integers, and
//! collections of payloads under one namespace pair.
use crate::store::{keys_in, valid_location, valid_namespace, KvStore, Location, StoreError};
use vstd::prelude::*;

verus! {

/// Primary namespace of the last rapid-gossip-sync timestamp.
pub const LATEST_RGS_SYNC_TIMESTAMP_PRIMARY_NAMESPACE: &'static str = "";

/// Secondary namespace of the last rapid-gossip-sync timestamp.
pub const LATEST_RGS_SYNC_TIMESTAMP_SECONDARY_NAMESPACE: &'static str = "";

/// Key of the last rapid-gossip-sync timestamp.
pub const LATEST_RGS_SYNC_TIMESTAMP_KEY: &'static str = "latest_rgs_sync_timestamp";

/// Primary namespace of the last node-announcement broadcast timestamp.
pub const LATEST_NODE_ANN_BCAST_TIMESTAMP_PRIMARY_NAMESPACE: &'static str = "";

/// Secondary namespace of the last node-announcement broadcast timestamp.
pub const LATEST_NODE_ANN_BCAST_TIMESTAMP_SECONDARY_NAMESPACE: &'static str = "";

/// Key of the last node-announcement broadcast timestamp.
pub const LATEST_NODE_ANN_BCAST_TIMESTAMP_KEY: &'static str = "latest_node_ann_bcast_timestamp";

/// Primary namespace of the per-payment records, keyed by payment identifier.
pub const PAYMENT_INFO_PERSISTENCE_PRIMARY_NAMESPACE: &'static str = "payments";

/// Secondary namespace of the per-payment records.
pub const PAYMENT_INFO_PERSISTENCE_SECONDARY_NAMESPACE: &'static str = "";

/// Primary namespace of the event queue.
pub const EVENT_QUEUE_PERSISTENCE_PRIMARY_NAMESPACE: &'static str = "";

/// Secondary namespace of the event queue.
pub const EVENT_QUEUE_PERSISTENCE_SECONDARY_NAMESPACE: &'static str = "";

/// Key of the event queue.
pub const EVENT_QUEUE_PERSISTENCE_KEY: &'static str = "events";

/// Primary namespace of the peer store.
pub const PEER_INFO_PERSISTENCE_PRIMARY_NAMESPACE: &'static str = "";

/// Secondary namespace of the peer store.
pub const PEER_INFO_PERSISTENCE_SECONDARY_NAMESPACE: &'static str = "";

/// Key of the peer store.
pub const PEER_INFO_PERSISTENCE_KEY: &'static str = "peers";

/// A record that could not be read.
#[derive(Clone, Debug)]
pub enum RecordError {
    /// The store refused the read.
    Store(StoreError),
    /// The payload does not decode to the expected type.
    DeserializationFailed,
}

/// A record that could not be written.
#[derive(Clone, Copy, Debug, PartialEq, Eq, Structural)]
pub enum PersistError {
    /// The store refused the write.
    PersistenceFailed,
}

/// `256` to the power `n`.
pub open spec fn pow256(n: nat) -> nat
    decreases n,
{
    if n == 0 {
        1
    } else {
        256 * pow256((n - 1) as nat)
    }
}

/// The number whose big-endian bytes are `b`.
pub open spec fn be_value(b: Seq<u8>) -> nat
    decreases b.len(),
{
    if b.len() == 0 {
        0
    } else {
        be_value(b.drop_last()) * 256 + b.last() as nat
    }
}

/// The `n` big-endian bytes of `v`, dropping what does not fit.
pub open spec fn be_bytes(v: nat, n: nat) -> Seq<u8>
    decreases n,
{
    if n == 0 {
        Seq::empty()
    } else {
        be_bytes(v / 256, (n - 1) as nat).push((v % 256) as u8)
    }
}

proof fn lemma_be_bytes_len(v: nat, n: nat)
    ensures
        be_bytes(v, n).len() == n,
    decreases n,
{
    if n > 0 {
        lemma_be_bytes_len(v / 256, (n - 1) as nat);
    }
}

/// Decoding the `n` big-endian bytes of a number below `256^n` gives it back.
pub proof fn lemma_be_round_trip(v: nat, n: nat)
    requires
        v < pow256(n),
    ensures
        be_value(be_bytes(v, n)) == v,
    decreases n,
{
    if n > 0 {
        assert(v / 256 < pow256((n - 1) as nat)) by (nonlinear_arith)
            requires
                v < 256 * pow256((n - 1) as nat),
        ;
        lemma_be_round_trip(v / 256, (n - 1) as nat);
        let b = be_bytes(v, n);
        assert(b.drop_last() =~= be_bytes(v / 256, (n - 1) as nat));
        assert((v / 256) * 256 + v % 256 == v) by (nonlinear_arith);
    }
}

/// The `n` big-endian bytes of `v`.
pub fn encode_be(v: u64, n: usize) -> (r: Vec<u8>)
    ensures
        r@ == be_bytes(v as nat, n as nat),
{
    let mut r: Vec<u8> = Vec::new();
    let mut x: u64 = v;
    let mut k: usize = 0;
    while k < n
        invariant
            k <= n,
            be_bytes(v as nat, n as nat) == be_bytes(x as nat, (n - k) as nat) + r@,
        decreases n - k,
    {
        let ghost before = r@;
        r.insert(0, (x % 256) as u8);
        assert(be_bytes(x as nat, (n - k) as nat) == be_bytes((x / 256) as nat, (n - k - 1) as nat).push(
            (x % 256) as u8,
        ));
        assert(be_bytes(x as nat, (n - k) as nat) + before =~= be_bytes(
            (x / 256) as nat,
            (n - k - 1) as nat,
        ) + r@);
        x = x / 256;
        k = k + 1;
    }
    assert(be_bytes(x as nat, 0) + r@ =~= r@);
    r
}

/// The number held in the first `n` bytes of `b`, read big-endian.
pub fn decode_be(b: &Vec<u8>, n: usize) -> (r: u64)
    requires
        n <= 8,
        n <= b@.len(),
    ensures
        r as nat == be_value(b@.subrange(0, n as int)),
        (r as nat) < pow256(n as nat),
{
    let mut acc: u64 = 0;
    let mut i: usize = 0;
    proof {
        lemma_pow256_8();
    }
    while i < n
        invariant
            i <= n,
            n <= 8,
            n <= b@.len(),
            pow256(8) == 18446744073709551616,
            acc as nat == be_value(b@.subrange(0, i as int)),
            (acc as nat) < pow256(i as nat),
        decreases n - i,
    {
        let ghost p = pow256(i as nat);
        proof {
            lemma_pow256_mono(i as nat + 1, 8);
            assert((acc as nat) * 256 + (b@[i as int] as nat) < p * 256) by (nonlinear_arith)
                requires
                    (acc as nat) < p,
                    b@[i as int] < 256,
            ;
        }
        acc = acc * 256 + b[i] as u64;
        assert(b@.subrange(0, i + 1).drop_last() =~= b@.subrange(0, i as int));
        i = i + 1;
    }
    acc
}

proof fn lemma_pow256_8()
    ensures
        pow256(4) == 4294967296,
        pow256(8) == 18446744073709551616,
{
    reveal_with_fuel(pow256, 9);
}

proof fn lemma_pow256_mono(a: nat, b: nat)
    requires
        a <= b,
    ensures
        pow256(a) <= pow256(b),
    decreases b,
{
    if a < b {
        lemma_pow256_mono(a, (b - 1) as nat);
    }
}

/// Where the last rapid-gossip-sync timestamp is kept.
pub open spec fn rgs_timestamp_location() -> Location {
    (
        LATEST_RGS_SYNC_TIMESTAMP_PRIMARY_NAMESPACE@,
        LATEST_RGS_SYNC_TIMESTAMP_SECONDARY_NAMESPACE@,
        LATEST_RGS_SYNC_TIMESTAMP_KEY@,
    )
}

/// Where the last node-announcement broadcast timestamp is kept.
pub open spec fn node_ann_timestamp_location() -> Location {
    (
        LATEST_NODE_ANN_BCAST_TIMESTAMP_PRIMARY_NAMESPACE@,
        LATEST_NODE_ANN_BCAST_TIMESTAMP_SECONDARY_NAMESPACE@,
        LATEST_NODE_ANN_BCAST_TIMESTAMP_KEY@,
    )
}

proof fn lemma_timestamp_locations_valid()
    ensures
        valid_location(
            rgs_timestamp_location().0,
            rgs_timestamp_location().1,
            rgs_timestamp_location().2,
        ),
        valid_location(
            node_ann_timestamp_location().0,
            node_ann_timestamp_location().1,
            node_ann_timestamp_location().2,
        ),
{
    reveal_strlit("");
    reveal_strlit("latest_rgs_sync_timestamp");
    reveal_strlit("latest_node_ann_bcast_timestamp");
}

/// What reading an `n`-byte big-endian integer at `t` yields: `NotFound` where
/// nothing is stored, a decode failure where fewer than `n` bytes are, and
/// else the number in the first `n` bytes.
pub open spec fn be_record_result(m: Map<Location, Seq<u8>>, t: Location, n: nat, r: Result<
    u64,
    RecordError,
>) -> bool {
    &&& (r matches Err(RecordError::Store(StoreError::NotFound))) <==> !m.contains_key(t)
    &&& (r matches Err(RecordError::DeserializationFailed)) <==> m.contains_key(t) && m[t].len() < n
    &&& (r is Ok) <==> m.contains_key(t) && m[t].len() >= n
    &&& r matches Ok(v) ==> m.contains_key(t) && m[t].len() >= n && v as nat == be_value(
        m[t].subrange(0, n as int),
    )
}

fn read_be_record(store: &KvStore, p: &str, s: &str, k: &str, n: usize) -> (r: Result<
    u64,
    RecordError,
>)
    requires
        store.wf(),
        valid_location(p@, s@, k@),
        n <= 8,
    ensures
        be_record_result(store@, (p@, s@, k@), n as nat, r),
        r matches Ok(v) ==> (v as nat) < pow256(n as nat),
{
    match store.read(p, s, k) {
        Err(e) => Err(RecordError::Store(e)),
        Ok(bytes) => {
            if bytes.len() < n {
                Err(RecordError::DeserializationFailed)
            } else {
                Ok(decode_be(&bytes, n))
            }
        },
    }
}

/// Reads the last rapid-gossip-sync timestamp.
pub fn read_latest_rgs_sync_timestamp(store: &KvStore) -> (r: Result<u32, RecordError>)
    requires
        store.wf(),
    ensures
        be_record_result(
            store@,
            rgs_timestamp_location(),
            4,
            match r {
                Ok(v) => Ok(v as u64),
                Err(e) => Err(e),
            },
        ),
{
    proof {
        lemma_timestamp_locations_valid();
        lemma_pow256_8();
    }
    match read_be_record(
        store,
        LATEST_RGS_SYNC_TIMESTAMP_PRIMARY_NAMESPACE,
        LATEST_RGS_SYNC_TIMESTAMP_SECONDARY_NAMESPACE,
        LATEST_RGS_SYNC_TIMESTAMP_KEY,
        4,
    ) {
        Ok(v) => Ok(v as u32),
        Err(e) => Err(e),
    }
}

/// Stores `updated_timestamp` as the last rapid-gossip-sync timestamp, in four
/// big-endian bytes.
pub fn write_latest_rgs_sync_timestamp(updated_timestamp: u32, store: &mut KvStore) -> (r: Result<
    (),
    PersistError,
>)
    requires
        old(store).wf(),
    ensures
        final(store).wf(),
        r is Ok,
        final(store)@ == old(store)@.insert(rgs_timestamp_location(), be_bytes(updated_timestamp as nat, 4)),
{
    proof {
        lemma_timestamp_locations_valid();
    }
    let data = encode_be(updated_timestamp as u64, 4);
    match store.write(
        LATEST_RGS_SYNC_TIMESTAMP_PRIMARY_NAMESPACE,
        LATEST_RGS_SYNC_TIMESTAMP_SECONDARY_NAMESPACE,
        LATEST_RGS_SYNC_TIMESTAMP_KEY,
        &data,
    ) {
        Ok(()) => Ok(()),
        Err(_) => Err(PersistError::PersistenceFailed),
    }
}

/// Reads the last node-announcement broadcast timestamp.
pub fn read_latest_node_ann_bcast_timestamp(store: &KvStore) -> (r: Result<u64, RecordError>)
    requires
        store.wf(),
    ensures
        be_record_result(store@, node_ann_timestamp_location(), 8, r),
{
    proof {
        lemma_timestamp_locations_valid();
    }
    read_be_record(
        store,
        LATEST_NODE_ANN_BCAST_TIMESTAMP_PRIMARY_NAMESPACE,
        LATEST_NODE_ANN_BCAST_TIMESTAMP_SECONDARY_NAMESPACE,
        LATEST_NODE_ANN_BCAST_TIMESTAMP_KEY,
        8,
    )
}

/// Stores `updated_timestamp` as the last node-announcement broadcast
/// timestamp, in eight big-endian bytes.
pub fn write_latest_node_ann_bcast_timestamp(updated_timestamp: u64, store: &mut KvStore) -> (r:
    Result<(), PersistError>)
    requires
        old(store).wf(),
    ensures
        final(store).wf(),
        r is Ok,
        final(store)@ == old(store)@.insert(node_ann_timestamp_location(), be_bytes(updated_timestamp as nat, 8)),
{
    proof {
        lemma_timestamp_locations_valid();
    }
    let data = encode_be(updated_timestamp, 8);
    match store.write(
        LATEST_NODE_ANN_BCAST_TIMESTAMP_PRIMARY_NAMESPACE,
        LATEST_NODE_ANN_BCAST_TIMESTAMP_SECONDARY_NAMESPACE,
        LATEST_NODE_ANN_BCAST_TIMESTAMP_KEY,
        &data,
    ) {
        Ok(()) => Ok(()),
        Err(_) => Err(PersistError::PersistenceFailed),
    }
}

/// A timestamp written to the store reads back unchanged.
pub proof fn lemma_rgs_timestamp_round_trip(before: Map<Location, Seq<u8>>, ts: u32)
    ensures
        be_record_result(
            before.insert(rgs_timestamp_location(), be_bytes(ts as nat, 4)),
            rgs_timestamp_location(),
            4,
            Ok(ts as u64),
        ),
{
    lemma_pow256_8();
    lemma_be_bytes_len(ts as nat, 4);
    lemma_be_round_trip(ts as nat, 4);
    assert(be_bytes(ts as nat, 4).subrange(0, 4) =~= be_bytes(ts as nat, 4));
}

/// A node-announcement timestamp written to the store reads back unchanged.
pub proof fn lemma_node_ann_timestamp_round_trip(before: Map<Location, Seq<u8>>, ts: u64)
    ensures
        be_record_result(
            before.insert(node_ann_timestamp_location(), be_bytes(ts as nat, 8)),
            node_ann_timestamp_location(),
            8,
            Ok(ts),
        ),
{
    lemma_pow256_8();
    lemma_be_bytes_len(ts as nat, 8);
    lemma_be_round_trip(ts as nat, 8);
    assert(be_bytes(ts as nat, 8).subrange(0, 8) =~= be_bytes(ts as nat, 8));
}

/// Where the event queue is kept.
pub open spec fn event_queue_location() -> Location {
    (
        EVENT_QUEUE_PERSISTENCE_PRIMARY_NAMESPACE@,
        EVENT_QUEUE_PERSISTENCE_SECONDARY_NAMESPACE@,
        EVENT_QUEUE_PERSISTENCE_KEY@,
    )
}

/// Where the peer store is kept.
pub open spec fn peer_info_location() -> Location {
    (PEER_INFO_PERSISTENCE_PRIMARY_NAMESPACE@, PEER_INFO_PERSISTENCE_SECONDARY_NAMESPACE@, PEER_INFO_PERSISTENCE_KEY@)
}

/// Reads the stored event queue's bytes, for its decoder.
pub fn read_event_queue_payload(store: &KvStore) -> (r: Result<Vec<u8>, StoreError>)
    requires
        store.wf(),
    ensures
        (r matches Err(StoreError::NotFound)) <==> !store@.contains_key(event_queue_location()),
        r matches Ok(v) ==> v@ == store@[event_queue_location()],
        !(r matches Err(StoreError::InvalidNamespaceOrKey(_))),
{
    proof {
        reveal_strlit("");
        reveal_strlit("events");
    }
    store.read(
        EVENT_QUEUE_PERSISTENCE_PRIMARY_NAMESPACE,
        EVENT_QUEUE_PERSISTENCE_SECONDARY_NAMESPACE,
        EVENT_QUEUE_PERSISTENCE_KEY,
    )
}

/// Reads the stored peer store's bytes, for its decoder.
pub fn read_peer_info_payload(store: &KvStore) -> (r: Result<Vec<u8>, StoreError>)
    requires
        store.wf(),
    ensures
        (r matches Err(StoreError::NotFound)) <==> !store@.contains_key(peer_info_location()),
        r matches Ok(v) ==> v@ == store@[peer_info_location()],
        !(r matches Err(StoreError::InvalidNamespaceOrKey(_))),
{
    proof {
        reveal_strlit("");
        reveal_strlit("peers");
    }
    store.read(
        PEER_INFO_PERSISTENCE_PRIMARY_NAMESPACE,
        PEER_INFO_PERSISTENCE_SECONDARY_NAMESPACE,
        PEER_INFO_PERSISTENCE_KEY,
    )
}

/// A payload together with the key it is stored under.
pub struct StoredRecord {
    pub key: String,
    pub value: Vec<u8>,
}

/// `recs` holds every record stored under `(p, s)`, each once, with its payload.
pub open spec fn holds_records_of(
    m: Map<Location, Seq<u8>>,
    p: Seq<char>,
    s: Seq<char>,
    recs: Seq<StoredRecord>,
) -> bool {
    &&& forall|i: int|
        0 <= i < recs.len() ==> m.contains_key((p, s, (#[trigger] recs[i]).key@)) && m[(
            p,
            s,
            recs[i].key@,
        )] == recs[i].value@
    &&& forall|k: Seq<char>|
        keys_in(m, p, s).contains(k) ==> exists|i: int| 0 <= i < recs.len() && (#[trigger] recs[i]).key@ == k
    &&& forall|i: int, j: int|
        0 <= i < recs.len() && 0 <= j < recs.len() && i != j ==> (#[trigger] recs[i]).key@ != (
        #[trigger] recs[j]).key@
}

/// `recs` follows the order in which `store` enumerates the keys under `(p, s)`.
pub open spec fn in_listing_order(store: &KvStore, p: Seq<char>, s: Seq<char>, recs: Seq<StoredRecord>) -> bool {
    &&& recs.len() == store.listing(p, s).len()
    &&& forall|i: int| 0 <= i < recs.len() ==> (#[trigger] recs[i]).key@ == store.listing(p, s)[i]
}

/// Reads every record stored under a namespace pair, in the order the store
/// lists them; a failure on any one fails the whole read.
pub fn read_namespace_records(store: &KvStore, primary_namespace: &str, secondary_namespace: &str) -> (r:
    Result<Vec<StoredRecord>, StoreError>)
    requires
        store.wf(),
    ensures
        r is Ok <==> valid_namespace(primary_namespace@, secondary_namespace@),
        r matches Ok(recs) ==> holds_records_of(store@, primary_namespace@, secondary_namespace@, recs@),
        r matches Ok(recs) ==> in_listing_order(store, primary_namespace@, secondary_namespace@, recs@),
{
    let names = match store.list(primary_namespace, secondary_namespace) {
        Ok(names) => names,
        Err(e) => return Err(e),
    };
    let ghost p = primary_namespace@;
    let ghost s = secondary_namespace@;
    let mut out: Vec<StoredRecord> = Vec::new();
    let mut i: usize = 0;
    while i < names.len()
        invariant
            store.wf(),
            p == primary_namespace@,
            s == secondary_namespace@,
            valid_namespace(p, s),
            crate::store::lists_keys_of(store@, p, s, names@),
            i <= names@.len(),
            out@.len() == i,
            forall|j: int| 0 <= j < i ==> (#[trigger] out@[j]).key@ == names@[j]@,
            forall|j: int|
                0 <= j < i ==> store@.contains_key((p, s, (#[trigger] out@[j]).key@)) && store@[(
                    p,
                    s,
                    out@[j].key@,
                )] == out@[j].value@,
        decreases names@.len() - i,
    {
        let name = &names[i];
        proof {
            assert(keys_in(store@, p, s).contains(name@));
            store.lemma_locations_valid((p, s, name@));
        }
        let value = match store.read(primary_namespace, secondary_namespace, name.as_str()) {
            Ok(value) => value,
            Err(e) => return Err(e),
        };
        out.push(StoredRecord { key: name.clone(), value });
        i = i + 1;
    }
    proof {
        assert forall|k: Seq<char>| keys_in(store@, p, s).contains(k) implies exists|j: int|
            0 <= j < out@.len() && (#[trigger] out@[j]).key@ == k by {
            let j = choose|j: int| 0 <= j < names@.len() && #[trigger] names@[j]@ == k;
            assert(out@[j].key@ == k);
        }
        assert forall|a: int, b: int|
            0 <= a < out@.len() && 0 <= b < out@.len() && a != b implies (#[trigger] out@[a]).key@ != (
            #[trigger] out@[b]).key@ by {
            assert(names@[a]@ != names@[b]@);
        }
    }
    Ok(out)
}

/// The per-payment records' namespace pair, as characters.
pub open spec fn payments_namespace() -> (Seq<char>, Seq<char>) {
    (PAYMENT_INFO_PERSISTENCE_PRIMARY_NAMESPACE@, PAYMENT_INFO_PERSISTENCE_SECONDARY_NAMESPACE@)
}

/// Reads every stored payment record, keyed by payment identifier.
pub fn read_payments(store: &KvStore) -> (r: Result<Vec<StoredRecord>, StoreError>)
    requires
        store.wf(),
    ensures
        r matches Ok(recs) && holds_records_of(
            store@,
            payments_namespace().0,
            payments_namespace().1,
            recs@,
        ),
        r matches Ok(recs) && in_listing_order(
            store,
            payments_namespace().0,
            payments_namespace().1,
            recs@,
        ),
{
    proof {
        reveal_strlit("payments");
        reveal_strlit("");
    }
    read_namespace_records(
        store,
        PAYMENT_INFO_PERSISTENCE_PRIMARY_NAMESPACE,
        PAYMENT_INFO_PERSISTENCE_SECONDARY_NAMESPACE,
    )
}

/// The store after writing each `(key, payload)` of `ws` under `(p, s)`, in order.
pub open spec fn write_all(
    m: Map<Location, Seq<u8>>,
    p: Seq<char>,
    s: Seq<char>,
    ws: Seq<(Seq<char>, Seq<u8>)>,
) -> Map<Location, Seq<u8>>
    decreases ws.len(),
{
    if ws.len() == 0 {
        m
    } else {
        write_all(m, p, s, ws.drop_last()).insert((p, s, ws.last().0), ws.last().1)
    }
}

/// Writing records under distinct keys into an empty namespace pair and
/// reading the pair back gives exactly the written keys, each with its
/// payload, whatever order the store lists them in.
pub proof fn lemma_collection_round_trip(
    m: Map<Location, Seq<u8>>,
    p: Seq<char>,
    s: Seq<char>,
    ws: Seq<(Seq<char>, Seq<u8>)>,
)
    requires
        keys_in(m, p, s).is_empty(),
        forall|i: int, j: int|
            0 <= i < ws.len() && 0 <= j < ws.len() && i != j ==> (#[trigger] ws[i]).0 != (#[trigger] ws[j]).0,
    ensures
        forall|k: Seq<char>|
            keys_in(write_all(m, p, s, ws), p, s).contains(k) <==> exists|i: int|
                0 <= i < ws.len() && (#[trigger] ws[i]).0 == k,
        forall|i: int|
            0 <= i < ws.len() ==> write_all(m, p, s, ws)[(p, s, (#[trigger] ws[i]).0)] == ws[i].1,
    decreases ws.len(),
{
    if ws.len() > 0 {
        let init = ws.drop_last();
        lemma_collection_round_trip(m, p, s, init);
        let n = ws.len() - 1;
        assert forall|k: Seq<char>|
            keys_in(write_all(m, p, s, ws), p, s).contains(k) <==> exists|i: int|
                0 <= i < ws.len() && (#[trigger] ws[i]).0 == k by {
            if keys_in(write_all(m, p, s, init), p, s).contains(k) {
                let i = choose|i: int| 0 <= i < init.len() && (#[trigger] init[i]).0 == k;
                assert(ws[i] == init[i]);
            }
            if exists|i: int| 0 <= i < ws.len() && (#[trigger] ws[i]).0 == k {
                let i = choose|i: int| 0 <= i < ws.len() && (#[trigger] ws[i]).0 == k;
                if i < n {
                    assert(init[i] == ws[i]);
                    assert(keys_in(write_all(m, p, s, init), p, s).contains(k));
                }
            }
        }
        assert forall|i: int| 0 <= i < ws.len() implies write_all(m, p, s, ws)[(
            p,
            s,
            (#[trigger] ws[i]).0,
        )] == ws[i].1 by {
            if i < n {
                assert(init[i] == ws[i]);
                assert(ws[i].0 != ws[n].0);
            }
        }
    } else {
        assert forall|k: Seq<char>| !keys_in(write_all(m, p, s, ws), p, s).contains(k) by {
            assert(!keys_in(m, p, s).contains(k));
        }
    }
}

/// `recs` holds a record with this key and payload.
pub open spec fn has_record(recs: Seq<StoredRecord>, key: Seq<char>, value: Seq<u8>) -> bool {
    exists|j: int| 0 <= j < recs.len() && (#[trigger] recs[j]).key@ == key && recs[j].value@ == value
}

/// Two complete readings of the same records under `(p, s)` hold the same
/// keys with the same payloads, whatever order each store listed them in.
pub proof fn lemma_readings_agree(
    m: Map<Location, Seq<u8>>,
    p: Seq<char>,
    s: Seq<char>,
    a: Seq<StoredRecord>,
    b: Seq<StoredRecord>,
)
    requires
        holds_records_of(m, p, s, a),
        holds_records_of(m, p, s, b),
    ensures
        a.len() == 0 <==> b.len() == 0,
        forall|i: int| 0 <= i < a.len() ==> has_record(b, (#[trigger] a[i]).key@, a[i].value@),
        forall|j: int| 0 <= j < b.len() ==> has_record(a, (#[trigger] b[j]).key@, b[j].value@),
{
    assert forall|i: int| 0 <= i < a.len() implies has_record(b, (#[trigger] a[i]).key@, a[i].value@) by {
        assert(keys_in(m, p, s).contains(a[i].key@));
        let j = choose|j: int| 0 <= j < b.len() && (#[trigger] b[j]).key@ == a[i].key@;
        assert(b[j].key@ == a[i].key@ && b[j].value@ == a[i].value@);
    }
    assert forall|j: int| 0 <= j < b.len() implies has_record(a, (#[trigger] b[j]).key@, b[j].value@) by {
        assert(keys_in(m, p, s).contains(b[j].key@));
        let i = choose|i: int| 0 <= i < a.len() && (#[trigger] a[i]).key@ == b[j].key@;
        assert(a[i].key@ == b[j].key@ && a[i].value@ == b[j].value@);
    }
    if a.len() > 0 {
        assert(has_record(b, a[0].key@, a[0].value@));
    }
    if b.len() > 0 {
        assert(has_record(a, b[0].key@, b[0].value@));
    }
}

/// The decoder of one kind of record's byte format.
pub trait RecordDecoder {
    type Record;

    /// The record held in `bytes`, or `None` where they do not decode.
    fn decode(&self, bytes: &Vec<u8>) -> Option<Self::Record>;
}

/// A collection that could not be read.
#[derive(Clone, Debug)]
pub enum CollectionError {
    /// The store refused the namespace pair.
    Store(StoreError),
    /// The record under this key does not decode; nothing is returned.
    DeserializationFailed { key: String },
}

/// Reads and decodes every record under a namespace pair, in the order the
/// store lists them. The first record that does not decode fails the whole
/// read: a missing record could stand for lost funds or history.
pub fn read_decoded_records<D: RecordDecoder>(
    store: &KvStore,
    primary_namespace: &str,
    secondary_namespace: &str,
    decoder: &D,
) -> (r: Result<Vec<(String, D::Record)>, CollectionError>)
    requires
        store.wf(),
    ensures
        (r matches Err(CollectionError::Store(_))) <==> !valid_namespace(
            primary_namespace@,
            secondary_namespace@,
        ),
        r matches Err(CollectionError::DeserializationFailed { key }) ==> keys_in(
            store@,
            primary_namespace@,
            secondary_namespace@,
        ).contains(key@),
        r matches Ok(v) ==> v@.len() == store.listing(primary_namespace@, secondary_namespace@).len()
            && forall|i: int|
            0 <= i < v@.len() ==> (#[trigger] v@[i]).0@ == store.listing(
                primary_namespace@,
                secondary_namespace@,
            )[i],
{
    let recs = match read_namespace_records(store, primary_namespace, secondary_namespace) {
        Ok(recs) => recs,
        Err(e) => return Err(CollectionError::Store(e)),
    };
    let ghost p = primary_namespace@;
    let ghost s = secondary_namespace@;
    let mut out: Vec<(String, D::Record)> = Vec::new();
    let mut i: usize = 0;
    while i < recs.len()
        invariant
            p == primary_namespace@,
            s == secondary_namespace@,
            valid_namespace(p, s),
            holds_records_of(store@, p, s, recs@),
            in_listing_order(store, p, s, recs@),
            i <= recs@.len(),
            out@.len() == i,
            forall|j: int| 0 <= j < i ==> (#[trigger] out@[j]).0@ == recs@[j].key@,
        decreases recs@.len() - i,
    {
        let rec = &recs[i];
        match decoder.decode(&rec.value) {
            Some(record) => {
                out.push((rec.key.clone(), record));
            },
            None => {
                assert(store@.contains_key((p, s, recs@[i as int].key@)));
                return Err(CollectionError::DeserializationFailed { key: rec.key.clone() });
            },
        }
        i = i + 1;
    }
    Ok(out)
}

} // verus!
