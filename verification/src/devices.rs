//! The device registry: which devices are still active, how far every
//! active device has synchronised, and which old segments may therefore be
//! deleted.

use vstd::prelude::*;
use crate::models::EventLog;
use crate::text::{chars_eq, chars_of, string_from_chars};

verus! {

/// Devices not seen for this many days no longer hold back cleanup.
pub const DEVICE_TTL_DAYS: i64 = 60;

/// Milliseconds per day.
pub const MS_PER_DAY: i64 = 86400000;

/// What a device last reported.
#[derive(Debug, Clone, Copy, PartialEq, Eq, Structural)]
pub struct DeviceRecord {
    /// The largest event timestamp (ms) this device has synchronised
    pub last_synced_ts: i64,
    /// When this device last updated its record (ms)
    pub last_seen_ts: i64,
}

// ---------------------------------------------------------------------------
// Registry file names
// ---------------------------------------------------------------------------

/// Index of the last `c` in `s`, if any.
pub open spec fn last_index_of(s: Seq<char>, c: char) -> Option<nat>
    decreases s.len(),
{
    if s.len() == 0 {
        None
    } else if s.last() == c {
        Some((s.len() - 1) as nat)
    } else {
        last_index_of(s.drop_last(), c)
    }
}

pub proof fn lemma_last_index_of(s: Seq<char>, c: char)
    ensures
        last_index_of(s, c) matches Some(i) ==> i < s.len() && s[i as int] == c && forall|k: int|
            i < k < s.len() ==> #[trigger] s[k] != c,
        last_index_of(s, c) is None ==> forall|k: int| 0 <= k < s.len() ==> #[trigger] s[k] != c,
    decreases s.len(),
{
    if s.len() > 0 {
        lemma_last_index_of(s.drop_last(), c);
        assert forall|k: int| 0 <= k < s.len() - 1 implies s[k] == s.drop_last()[k] by {}
    }
}

/// `Path::extension` and `Path::file_stem` of a file name: split at the last
/// `.`, unless there is none or it is the first character.
pub open spec fn stem_and_extension(name: Seq<char>) -> (Seq<char>, Option<Seq<char>>) {
    match last_index_of(name, '.') {
        Some(i) => if i == 0 {
            (name, None)
        } else {
            (name.take(i as int), Some(name.skip(i as int + 1)))
        },
        None => (name, None),
    }
}

/// The device a registry file belongs to: a `<device>.json` file names its
/// device; other files are no device records.
pub open spec fn spec_device_id_of_file(name: Seq<char>) -> Option<Seq<char>> {
    let (stem, ext) = stem_and_extension(name);
    if ext == Some("json"@) {
        Some(stem)
    } else {
        None
    }
}

pub fn device_id_of_file(name: &str) -> (r: Option<String>)
    ensures
        match r {
            Some(id) => spec_device_id_of_file(name@) == Some(id@),
            None => spec_device_id_of_file(name@) is None,
        },
{
    let v = chars_of(name);
    proof {
        lemma_last_index_of(v@, '.');
    }
    let mut i: usize = v.len();
    while i > 0 && v[i - 1] != '.'
        invariant
            i <= v.len(),
            v@ == name@,
            forall|k: int| i <= k < v.len() ==> v@[k] != '.',
        decreases i,
    {
        i = i - 1;
    }
    proof {
        if i > 0 {
            assert(last_index_of(v@, '.') == Some((i - 1) as nat)) by {
                lemma_last_index_unique(v@, '.', (i - 1) as nat);
            }
        } else {
            lemma_no_last_index(v@, '.');
        }
    }
    if i <= 1 {
        return None;
    }
    let dot = i - 1;
    let mut ext: Vec<char> = Vec::new();
    let mut j: usize = dot + 1;
    while j < v.len()
        invariant
            dot + 1 <= j <= v.len(),
            ext@ == v@.subrange(dot + 1, j as int),
        decreases v.len() - j,
    {
        ext.push(v[j]);
        assert(v@.subrange(dot + 1, j + 1) == v@.subrange(dot + 1, j as int).push(v@[j as int]));
        j = j + 1;
    }
    assert(ext@ == v@.skip(dot + 1));
    let json = chars_of("json");
    if !chars_eq(&ext, &json) {
        return None;
    }
    let mut stem: Vec<char> = Vec::new();
    let mut k: usize = 0;
    while k < dot
        invariant
            k <= dot < v.len(),
            stem@ == v@.take(k as int),
        decreases dot - k,
    {
        stem.push(v[k]);
        assert(v@.take(k + 1) == v@.take(k as int).push(v@[k as int]));
        k = k + 1;
    }
    Some(string_from_chars(&stem))
}

proof fn lemma_last_index_unique(s: Seq<char>, c: char, i: nat)
    requires
        i < s.len(),
        s[i as int] == c,
        forall|k: int| i < k < s.len() ==> s[k] != c,
    ensures
        last_index_of(s, c) == Some(i),
    decreases s.len(),
{
    if i < s.len() - 1 {
        assert(s.last() == s[s.len() - 1]);
        assert forall|k: int| i < k < s.drop_last().len() implies s.drop_last()[k] != c by {
            assert(s.drop_last()[k] == s[k]);
        }
        lemma_last_index_unique(s.drop_last(), c, i);
    }
}

proof fn lemma_no_last_index(s: Seq<char>, c: char)
    requires
        forall|k: int| 0 <= k < s.len() ==> s[k] != c,
    ensures
        last_index_of(s, c) is None,
    decreases s.len(),
{
    if s.len() > 0 {
        assert(s.last() == s[s.len() - 1]);
        assert forall|k: int| 0 <= k < s.drop_last().len() implies s.drop_last()[k] != c by {
            assert(s.drop_last()[k] == s[k]);
        }
        lemma_no_last_index(s.drop_last(), c);
    }
}

// ---------------------------------------------------------------------------
// Active devices
// ---------------------------------------------------------------------------

/// A device is active while no more than the TTL has passed since it was
/// last seen.
pub open spec fn is_active(r: DeviceRecord, now_ts: i64) -> bool {
    now_ts - r.last_seen_ts <= DEVICE_TTL_DAYS * MS_PER_DAY
}

/// The registry entries of active devices, in order.
pub open spec fn active_entries(entries: Seq<(String, DeviceRecord)>, now_ts: i64) -> Seq<(String, DeviceRecord)> {
    entries.filter(|e: (String, DeviceRecord)| is_active(e.1, now_ts))
}

/// Registry entries name each device once (the registry holds one file per
/// device).
pub open spec fn ids_distinct(entries: Seq<(String, DeviceRecord)>) -> bool {
    forall|i: int, j: int| 0 <= i < j < entries.len() ==> #[trigger] entries[i].0@ != #[trigger] entries[j].0@
}

proof fn lemma_active_keeps_ids_distinct(entries: Seq<(String, DeviceRecord)>, now_ts: i64)
    requires
        ids_distinct(entries),
    ensures
        ids_distinct(active_entries(entries, now_ts)),
    decreases entries.len(),
{
    let pred = |e: (String, DeviceRecord)| is_active(e.1, now_ts);
    if entries.len() > 0 {
        let init = entries.drop_last();
        let e = entries.last();
        assert(ids_distinct(init)) by {
            assert forall|i: int, j: int| 0 <= i < j < init.len() implies #[trigger] init[i].0@ != #[trigger] init[j].0@ by {
                assert(init[i] == entries[i] && init[j] == entries[j]);
            }
        }
        lemma_active_keeps_ids_distinct(init, now_ts);
        assert(init.push(e) =~= entries);
        init.lemma_filter_push(e, pred);
        let f = init.filter(pred);
        if pred(e) {
            let g = f.push(e);
            assert forall|i: int, j: int| 0 <= i < j < g.len() implies #[trigger] g[i].0@ != #[trigger] g[j].0@ by {
                if j == g.len() - 1 {
                    assert(g[i] == f[i]);
                    assert(f.contains(f[i]));
                    init.lemma_filter_contains_rev(pred, f[i]);
                    let k = choose|k: int| 0 <= k < init.len() && init[k] == f[i];
                    assert(entries[k] == init[k]);
                    assert(entries[entries.len() - 1] == e);
                } else {
                    assert(g[i] == f[i] && g[j] == f[j]);
                }
            }
        }
    }
}

/// Keeps the devices seen within the TTL at time `now_ts` (ms); registry
/// entries that name each device once still do.
pub fn filter_active_devices(entries: Vec<(String, DeviceRecord)>, now_ts: i64) -> (r: Vec<(String, DeviceRecord)>)
    ensures
        r@ == active_entries(entries@, now_ts),
        ids_distinct(entries@) ==> ids_distinct(r@),
{
    let ghost orig = entries@;
    let ghost pred = |x: (String, DeviceRecord)| is_active(x.1, now_ts);
    let mut rest = entries;
    let mut out: Vec<(String, DeviceRecord)> = Vec::new();
    let ghost mut n: int = 0;
    while rest.len() > 0
        invariant
            0 <= n <= orig.len(),
            rest@ == orig.skip(n),
            pred == (|x: (String, DeviceRecord)| is_active(x.1, now_ts)),
            out@ == orig.take(n).filter(pred),
        decreases rest.len(),
    {
        let e = rest.remove(0);
        proof {
            assert(e == orig[n]);
            assert(orig.take(n + 1) == orig.take(n).push(e));
            orig.take(n).lemma_filter_push(e, pred);
            assert(rest@ == orig.skip(n + 1));
        }
        let ttl_ms: i128 = DEVICE_TTL_DAYS as i128 * MS_PER_DAY as i128;
        let elapsed: i128 = now_ts as i128 - e.1.last_seen_ts as i128;
        if elapsed <= ttl_ms {
            out.push(e);
        }
        proof {
            n = n + 1;
        }
    }
    assert(orig.take(n) == orig);
    proof {
        if ids_distinct(orig) {
            lemma_active_keeps_ids_distinct(orig, now_ts);
        }
    }
    out
}

/// The registry entries of the devices that are active at `now_ts` (ms),
/// in their order, each device still named once.
pub fn read_active_devices(entries: Vec<(String, DeviceRecord)>, now_ts: i64) -> (r: Vec<(String, DeviceRecord)>)
    ensures
        r@ == active_entries(entries@, now_ts),
        ids_distinct(entries@) ==> ids_distinct(r@),
{
    filter_active_devices(entries, now_ts)
}

/// The record this device writes after synchronising up to
/// `last_synced_ts`: that mark, seen at `now_ts` (ms).
pub fn new_device_record(last_synced_ts: i64, now_ts: i64) -> (r: DeviceRecord)
    ensures
        r == (DeviceRecord { last_synced_ts, last_seen_ts: now_ts }),
{
    DeviceRecord { last_synced_ts, last_seen_ts: now_ts }
}

/// The registry file of a device: `<device>.json`.
pub open spec fn device_file_name_of(device_id: Seq<char>) -> Seq<char> {
    device_id + ".json"@
}

pub fn device_file_name(device_id: &str) -> (r: String)
    ensures
        r@ == device_file_name_of(device_id@),
{
    let mut s = String::from_str(device_id);
    s.append(".json");
    s
}

/// A device's registry file names that device again (for a non-empty id:
/// a file named `.json` names none).
pub proof fn lemma_device_file_round_trip(device_id: Seq<char>)
    requires
        device_id.len() > 0,
    ensures
        spec_device_id_of_file(device_file_name_of(device_id)) == Some(device_id),
{
    let name = device_file_name_of(device_id);
    reveal_strlit(".json");
    let i = device_id.len();
    assert(name[i as int] == '.');
    assert forall|k: int| i < k < name.len() implies name[k] != '.' by {
        assert(name[k] == ".json"@[k - i]);
    }
    lemma_last_index_unique(name, '.', i);
    assert(name.take(i as int) == device_id);
    assert(name.skip(i as int + 1) == "json"@) by {
        reveal_strlit("json");
    }
}

/// A file that names a device is that device's registry file, so two files
/// name the same device only if they are the same file: reading a registry
/// directory gives each device once.
pub proof fn lemma_device_file_unique(a: Seq<char>, b: Seq<char>)
    requires
        spec_device_id_of_file(a) is Some,
        spec_device_id_of_file(a) == spec_device_id_of_file(b),
    ensures
        a == b,
        a == device_file_name_of(spec_device_id_of_file(a)->0),
{
    lemma_file_is_named_by_its_device(a);
    lemma_file_is_named_by_its_device(b);
}

proof fn lemma_file_is_named_by_its_device(name: Seq<char>)
    requires
        spec_device_id_of_file(name) is Some,
    ensures
        name == device_file_name_of(spec_device_id_of_file(name)->0),
{
    lemma_last_index_of(name, '.');
    reveal_strlit("json");
    reveal_strlit(".json");
    let i = last_index_of(name, '.')->0;
    let stem = name.take(i as int);
    assert(name.skip(i as int + 1) == "json"@);
    assert(spec_device_id_of_file(name)->0 == stem);
    assert forall|k: int| 0 <= k < name.len() implies name[k] == device_file_name_of(stem)[k] by {
        if k < i {
        } else if k == i {
        } else {
            assert(name[k] == name.skip(i as int + 1)[k - i - 1]);
        }
    }
    assert(name.len() == i + 5) by {
        assert(name.skip(i as int + 1).len() == 4);
    }
    assert(name =~= device_file_name_of(stem));
}

/// What a device writes to the registry is read back for it: its file
/// names the device again, and its record is among the active entries read
/// at any time up to the TTL after it was last seen, so its synchronised mark
/// takes part in the safety line.
pub proof fn lemma_written_record_is_read_back(device_id: Seq<char>, entries: Seq<(String, DeviceRecord)>, i: int, now_ts: i64)
    requires
        device_id.len() > 0,
        0 <= i < entries.len(),
        now_ts - entries[i].1.last_seen_ts <= DEVICE_TTL_DAYS * MS_PER_DAY,
    ensures
        spec_device_id_of_file(device_file_name_of(device_id)) == Some(device_id),
        active_entries(entries, now_ts).contains(entries[i]),
{
    lemma_device_file_round_trip(device_id);
    entries.lemma_filter_contains(|e: (String, DeviceRecord)| is_active(e.1, now_ts), i);
}

/// The smallest synchronised timestamp of the given devices.
pub open spec fn min_synced(devices: Seq<DeviceRecord>) -> i64
    recommends
        devices.len() > 0,
    decreases devices.len(),
{
    if devices.len() <= 1 {
        devices[0].last_synced_ts
    } else {
        let m = min_synced(devices.drop_last());
        if devices.last().last_synced_ts < m {
            devices.last().last_synced_ts
        } else {
            m
        }
    }
}

/// The safety line for cleanup: the smallest `last_synced_ts` among the
/// active devices, or `None` when there is no active device (and nothing
/// may be cleaned).
pub fn min_synced_ts_across_devices(devices: &Vec<DeviceRecord>) -> (r: Option<i64>)
    ensures
        devices@.len() == 0 <==> r is None,
        r matches Some(m) ==> m == min_synced(devices@) && (forall|i: int|
            0 <= i < devices@.len() ==> m <= #[trigger] devices@[i].last_synced_ts) && (exists|i: int|
            0 <= i < devices@.len() && m == #[trigger] devices@[i].last_synced_ts),
{
    if devices.len() == 0 {
        return None;
    }
    let mut m = devices[0].last_synced_ts;
    let mut i: usize = 1;
    assert(devices@.take(1).len() == 1);
    while i < devices.len()
        invariant
            1 <= i <= devices.len(),
            m == min_synced(devices@.take(i as int)),
            forall|k: int| 0 <= k < i ==> m <= #[trigger] devices@[k].last_synced_ts,
            exists|k: int| 0 <= k < i && m == #[trigger] devices@[k].last_synced_ts,
        decreases devices.len() - i,
    {
        proof {
            let t = devices@.take(i + 1);
            assert(t.drop_last() == devices@.take(i as int));
            assert(t.last() == devices@[i as int]);
        }
        if devices[i].last_synced_ts < m {
            m = devices[i].last_synced_ts;
        }
        i = i + 1;
    }
    assert(devices@.take(devices.len() as int) == devices@);
    Some(m)
}

// ---------------------------------------------------------------------------
// Cleanup
// ---------------------------------------------------------------------------

/// A sealed segment may go once every active device has synchronised past
/// all its events: its largest timestamp (`i64::MIN` for an empty segment)
/// is below the safety line.
pub open spec fn segment_deletable(timestamps: Seq<i64>, min_ts: i64) -> bool {
    &&& forall|i: int| 0 <= i < timestamps.len() ==> #[trigger] timestamps[i] < min_ts
    &&& timestamps.len() == 0 ==> i64::MIN < min_ts
}

/// Whether a sealed segment whose events have the given timestamps can be
/// deleted under the safety line `min_ts`.
pub fn segment_can_be_deleted(events: &Vec<EventLog>, min_ts: i64) -> (r: bool)
    ensures
        r == segment_deletable(events@.map_values(|e: EventLog| e.timestamp), min_ts),
{
    let ghost ts = events@.map_values(|e: EventLog| e.timestamp);
    let mut max_ts: i64 = i64::MIN;
    let mut i: usize = 0;
    while i < events.len()
        invariant
            i <= events.len(),
            ts == events@.map_values(|e: EventLog| e.timestamp),
            forall|k: int| 0 <= k < i ==> #[trigger] ts[k] <= max_ts,
            max_ts == i64::MIN || exists|k: int| 0 <= k < i && max_ts == #[trigger] ts[k],
        decreases events.len() - i,
    {
        assert(ts[i as int] == events@[i as int].timestamp);
        if events[i].timestamp > max_ts {
            max_ts = events[i].timestamp;
        }
        i = i + 1;
    }
    proof {
        if events@.len() > 0 {
            assert(ts[0] <= max_ts);
        }
    }
    max_ts < min_ts
}

/// What the cleanup does with each sealed segment: given the safety line
/// (`None`: no active device) and the timestamps of each segment, whether it
/// is deleted. Nothing is deleted without an active device.
pub fn plan_segment_cleanup(min_ts: Option<i64>, segments: &Vec<Vec<EventLog>>) -> (r: Vec<bool>)
    ensures
        r@.len() == segments@.len(),
        forall|i: int| 0 <= i < r@.len() ==> #[trigger] r@[i] == match min_ts {
            None => false,
            Some(m) => segment_deletable(segments@[i]@.map_values(|e: EventLog| e.timestamp), m),
        },
{
    let mut out: Vec<bool> = Vec::new();
    let mut i: usize = 0;
    while i < segments.len()
        invariant
            i <= segments.len(),
            out@.len() == i,
            forall|k: int| 0 <= k < i ==> #[trigger] out@[k] == match min_ts {
                None => false,
                Some(m) => segment_deletable(segments@[k]@.map_values(|e: EventLog| e.timestamp), m),
            },
        decreases segments.len() - i,
    {
        let d = match min_ts {
            None => false,
            Some(m) => segment_can_be_deleted(&segments[i], m),
        };
        out.push(d);
        i = i + 1;
    }
    out
}

/// Cleanup never deletes an event that some active device has not yet
/// synchronised: every event of a deletable segment lies strictly below the
/// synchronised timestamp of every active device.
pub proof fn lemma_cleanup_keeps_unsynced_events(devices: Seq<DeviceRecord>, m: i64, timestamps: Seq<i64>, i: int, d: int)
    requires
        forall|k: int| 0 <= k < devices.len() ==> m <= #[trigger] devices[k].last_synced_ts,
        segment_deletable(timestamps, m),
        0 <= i < timestamps.len(),
        0 <= d < devices.len(),
    ensures
        timestamps[i] < devices[d].last_synced_ts,
{
    assert(m <= devices[d].last_synced_ts);
}

/// The largest timestamp among the events, 0 when there is none (the mark a
/// device records after pushing).
pub open spec fn max_timestamp_or_zero(s: Seq<EventLog>) -> i64
    decreases s.len(),
{
    if s.len() == 0 {
        0
    } else if s.len() == 1 {
        s[0].timestamp
    } else {
        let m = max_timestamp_or_zero(s.drop_last());
        if s.last().timestamp > m {
            s.last().timestamp
        } else {
            m
        }
    }
}

pub fn max_event_timestamp(events: &Vec<EventLog>) -> (r: i64)
    ensures
        r == max_timestamp_or_zero(events@),
        events@.len() > 0 ==> (forall|i: int| 0 <= i < events@.len() ==> #[trigger] events@[i].timestamp <= r),
{
    if events.len() == 0 {
        return 0;
    }
    let mut m = events[0].timestamp;
    let mut i: usize = 1;
    assert(events@.take(1).len() == 1);
    while i < events.len()
        invariant
            1 <= i <= events.len(),
            m == max_timestamp_or_zero(events@.take(i as int)),
            forall|k: int| 0 <= k < i ==> #[trigger] events@[k].timestamp <= m,
        decreases events.len() - i,
    {
        proof {
            let t = events@.take(i + 1);
            assert(t.drop_last() == events@.take(i as int));
            assert(t.last() == events@[i as int]);
        }
        if events[i].timestamp > m {
            m = events[i].timestamp;
        }
        i = i + 1;
    }
    assert(events@.take(events.len() as int) == events@);
    m
}

} // verus!
