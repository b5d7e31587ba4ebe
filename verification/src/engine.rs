//! The windowed correlation engine.
//!
//! The engine holds the two bounded look-back buffers of the self
//! station's reports, the current 120-second cycle, and the map from
//! correlation key to evolving contact aggregate.  Each ingested report
//! advances the cycle and prunes the buffers, is matched against the
//! opposite buffer, merges into aggregates, and then due aggregates —
//! those whose last evidence is more than two cycles old — are removed
//! and handed back for emission, each exactly once.

use vstd::prelude::*;
use crate::band::{classify, spec_classify, Band};
use crate::qso::{qso_new, qso_update, Qso, QsoV};
use crate::spot::{Spot, SpotV};
use crate::text::{eq_ci, folded};

verus! {

/// Mathematical image of a [`QsoKey`].
pub struct KeyV {
    pub call: Seq<u8>,
    pub grid_op: Seq<u8>,
    pub grid_ct: Seq<u8>,
    pub band_op: Band,
    pub band_ct: Band,
}

/// Correlation key of one two-way session: the contact's call sign, the
/// two grids, and the band of each direction, with the text parts stored
/// case-folded so equal keys are equal byte strings.
pub struct QsoKey {
    /// Contact call sign, upper-cased.
    pub call: Vec<u8>,
    /// Self's grid in the heard-by-self report, upper-cased.
    pub grid_op: Vec<u8>,
    /// Contact's grid, upper-cased.
    pub grid_ct: Vec<u8>,
    /// Band of the report where self was the reporter.
    pub band_op: Band,
    /// Band of the report where self was the transmitter.
    pub band_ct: Band,
}

impl View for QsoKey {
    type V = KeyV;

    open spec fn view(&self) -> KeyV {
        KeyV {
            call: self.call@,
            grid_op: self.grid_op@,
            grid_ct: self.grid_ct@,
            band_op: self.band_op,
            band_ct: self.band_ct,
        }
    }
}

/// Mathematical image of the whole engine state.
pub struct EngineV {
    pub self_call: Seq<u8>,
    pub excluded: Seq<Seq<u8>>,
    pub cycle: u64,
    pub rx: Seq<SpotV>,
    pub tx: Seq<SpotV>,
    pub qsos: Seq<(KeyV, QsoV)>,
}

/// Report views of a buffer.
pub open spec fn spots_view(s: Seq<Spot>) -> Seq<SpotV> {
    s.map_values(|x: Spot| x@)
}

/// Entry views of the aggregate map.
pub open spec fn entries_view(s: Seq<(QsoKey, Qso)>) -> Seq<(KeyV, QsoV)> {
    s.map_values(|e: (QsoKey, Qso)| (e.0@, e.1@))
}

/// Aggregate views of an emitted batch.
pub open spec fn qsos_view(s: Seq<Qso>) -> Seq<QsoV> {
    s.map_values(|q: Qso| q@)
}

/// Byte string views of the exclusion list.
pub open spec fn calls_view(s: Seq<Vec<u8>>) -> Seq<Seq<u8>> {
    s.map_values(|c: Vec<u8>| c@)
}

/// The report names the self station as its reporter.
pub open spec fn spot_is_rx(s: SpotV, self_call: Seq<u8>) -> bool {
    eq_ci(s.call_rx, self_call)
}

/// The report names the self station as its transmitter.
pub open spec fn spot_is_tx(s: SpotV, self_call: Seq<u8>) -> bool {
    eq_ci(s.call_tx, self_call)
}

/// The report involves the self station at all.
pub open spec fn spot_is_self(s: SpotV, self_call: Seq<u8>) -> bool {
    spot_is_rx(s, self_call) || spot_is_tx(s, self_call)
}

/// The other party's call sign: the transmitter where self reported,
/// else the reporter.
pub open spec fn counterpart_call(s: SpotV, self_call: Seq<u8>) -> Seq<u8> {
    if spot_is_rx(s, self_call) {
        s.call_tx
    } else {
        s.call_rx
    }
}

/// Byte-exact membership in the exclusion list.
pub open spec fn is_excluded(excl: Seq<Seq<u8>>, call: Seq<u8>) -> bool {
    exists|i: int| 0 <= i < excl.len() && excl[i] == call
}

/// The cycle after seeing a report: the counter only moves forward.
pub open spec fn next_cycle(cycle: u64, s: SpotV) -> u64 {
    if s.cycle() > cycle {
        (s.timestamp / 120) as u64
    } else {
        cycle
    }
}

/// A buffered report is kept while its cycle is at most two behind.
pub open spec fn keep_in_window(s: SpotV, cycle: u64) -> bool {
    s.cycle() + 2 >= cycle
}

/// The buffer with every report more than two cycles old removed.
pub open spec fn pruned(buf: Seq<SpotV>, cycle: u64) -> Seq<SpotV>
    decreases buf.len(),
{
    if buf.len() == 0 {
        Seq::empty()
    } else {
        pruned(buf.drop_last(), cycle) + if keep_in_window(buf.last(), cycle) {
            seq![buf.last()]
        } else {
            Seq::empty()
        }
    }
}

/// A prior heard-by-contact report reciprocates a new self-heard report:
/// the prior reporter is the newly heard station and the grids
/// cross-match.
pub open spec fn matches_rx(prior: SpotV, new: SpotV) -> bool {
    &&& eq_ci(prior.call_rx, new.call_tx)
    &&& eq_ci(prior.grid_rx, new.grid_tx)
    &&& eq_ci(prior.grid_tx, new.grid_rx)
}

/// A prior self-heard report reciprocates a new heard-by-contact report.
pub open spec fn matches_tx(prior: SpotV, new: SpotV) -> bool {
    &&& eq_ci(prior.call_tx, new.call_rx)
    &&& eq_ci(prior.grid_rx, new.grid_tx)
    &&& eq_ci(prior.grid_tx, new.grid_rx)
}

/// Key derived when the new report is self-heard (`band_rx` its band,
/// `band_tx` the matched prior report's band).
pub open spec fn key_rx(new: SpotV, band_rx: Band, band_tx: Band) -> KeyV {
    KeyV {
        call: folded(new.call_tx),
        grid_op: folded(new.grid_rx),
        grid_ct: folded(new.grid_tx),
        band_op: band_rx,
        band_ct: band_tx,
    }
}

/// Key derived when the new report is heard-by-contact (`band_tx` its
/// band, `band_rx` the matched prior report's band).
pub open spec fn key_tx(new: SpotV, band_rx: Band, band_tx: Band) -> KeyV {
    KeyV {
        call: folded(new.call_rx),
        grid_op: folded(new.grid_tx),
        grid_ct: folded(new.grid_rx),
        band_op: band_rx,
        band_ct: band_tx,
    }
}

/// Index of the first entry with key `k`, or the length if there is none.
pub open spec fn find_key(entries: Seq<(KeyV, QsoV)>, k: KeyV) -> int
    decreases entries.len(),
{
    if entries.len() == 0 {
        0
    } else if entries[0].0 == k {
        0
    } else {
        1 + find_key(entries.skip(1), k)
    }
}

/// Create-or-merge of one reciprocal pair under key `k`: a fresh
/// aggregate is created and immediately merged with its founding pair; an
/// existing one is merged in place.
pub open spec fn upsert(entries: Seq<(KeyV, QsoV)>, k: KeyV, op: SpotV, ct: SpotV) -> Seq<
    (KeyV, QsoV),
> {
    let i = find_key(entries, k);
    if i == entries.len() {
        entries.push((k, qso_update(qso_new(op, ct), op, ct)))
    } else {
        entries.update(i, (k, qso_update(entries[i].1, op, ct)))
    }
}

/// Merges a new self-heard report against every reciprocal entry of the
/// heard-by-contact buffer, in buffer order.
pub open spec fn merge_rx(
    entries: Seq<(KeyV, QsoV)>,
    prior: Seq<SpotV>,
    new: SpotV,
    band_new: Band,
) -> Seq<(KeyV, QsoV)>
    decreases prior.len(),
{
    if prior.len() == 0 {
        entries
    } else {
        let done = merge_rx(entries, prior.drop_last(), new, band_new);
        let p = prior.last();
        if matches_rx(p, new) {
            upsert(done, key_rx(new, band_new, spec_classify(p.frequency).unwrap()), new, p)
        } else {
            done
        }
    }
}

/// Merges a new heard-by-contact report against every reciprocal entry of
/// the self-heard buffer, in buffer order.
pub open spec fn merge_tx(
    entries: Seq<(KeyV, QsoV)>,
    prior: Seq<SpotV>,
    new: SpotV,
    band_new: Band,
) -> Seq<(KeyV, QsoV)>
    decreases prior.len(),
{
    if prior.len() == 0 {
        entries
    } else {
        let done = merge_tx(entries, prior.drop_last(), new, band_new);
        let p = prior.last();
        if matches_tx(p, new) {
            upsert(done, key_tx(new, spec_classify(p.frequency).unwrap(), band_new), p, new)
        } else {
            done
        }
    }
}

/// An aggregate stays while its last evidence is at most two cycles old.
pub open spec fn qso_due(q: QsoV, cycle: u64) -> bool {
    crate::spot::spec_cycle_of(q.time_last) + 2 < cycle
}

/// The map entries that stay after a finalization scan, in order.
pub open spec fn evict_keep(entries: Seq<(KeyV, QsoV)>, cycle: u64) -> Seq<(KeyV, QsoV)>
    decreases entries.len(),
{
    if entries.len() == 0 {
        Seq::empty()
    } else {
        evict_keep(entries.drop_last(), cycle) + if !qso_due(entries.last().1, cycle) {
            seq![entries.last()]
        } else {
            Seq::empty()
        }
    }
}

/// The aggregates removed and emitted by a finalization scan, in order.
pub open spec fn evict_out(entries: Seq<(KeyV, QsoV)>, cycle: u64) -> Seq<QsoV>
    decreases entries.len(),
{
    if entries.len() == 0 {
        Seq::empty()
    } else {
        evict_out(entries.drop_last(), cycle) + if qso_due(entries.last().1, cycle) {
            seq![entries.last().1]
        } else {
            Seq::empty()
        }
    }
}

/// No two map entries share a key.
pub open spec fn unique_keys(entries: Seq<(KeyV, QsoV)>) -> bool {
    forall|i: int, j: int|
        0 <= i < j < entries.len() ==> (#[trigger] entries[i]).0 != (#[trigger] entries[j]).0
}

/// The state after the cycle advance and prune that a report triggers.
pub open spec fn step_cycle(e: EngineV, s: SpotV) -> EngineV {
    let c = next_cycle(e.cycle, s);
    if c > e.cycle {
        EngineV { cycle: c, rx: pruned(e.rx, c), tx: pruned(e.tx, c), ..e }
    } else {
        e
    }
}

/// The state after matching and buffering a self report of band `band`.
pub open spec fn step_match(e: EngineV, s: SpotV, band: Band) -> EngineV {
    if spot_is_rx(s, e.self_call) {
        EngineV { qsos: merge_rx(e.qsos, e.tx, s, band), rx: e.rx.push(s), ..e }
    } else {
        EngineV { qsos: merge_tx(e.qsos, e.rx, s, band), tx: e.tx.push(s), ..e }
    }
}

/// What one ingested report does to the engine, and which outcome and
/// emitted batch it must report: a report not naming self leaves the
/// state untouched; one whose frequency no band classifies, or whose
/// counterpart is excluded, only advances the cycle and prunes; any other
/// is matched, merged and buffered, and every aggregate whose last
/// evidence is then more than two cycles old leaves the map, emitted in
/// map order.
pub open spec fn ingest_post(e0: EngineV, s: SpotV, e2: EngineV, r: IngestOutcome) -> bool {
    let e1 = step_cycle(e0, s);
    if !spot_is_self(s, e0.self_call) {
        r is NotSelf && e2 == e0
    } else if spec_classify(s.frequency) is None {
        r is UnknownBand && e2 == e1
    } else if is_excluded(e1.excluded, counterpart_call(s, e0.self_call)) {
        r is Excluded && e2 == e1
    } else {
        let em = step_match(e1, s, spec_classify(s.frequency).unwrap());
        &&& e2 == EngineV { qsos: evict_keep(em.qsos, em.cycle), ..em }
        &&& match r {
            IngestOutcome::Processed { emitted } => qsos_view(emitted@) == evict_out(
                em.qsos,
                em.cycle,
            ),
            _ => false,
        }
    }
}

/// What the engine did with one report.
pub enum IngestOutcome {
    /// The report names the self station as neither party; nothing
    /// changed.
    NotSelf,
    /// The report's frequency lies in no known band; it was not matched
    /// or buffered.
    UnknownBand,
    /// The other party is on the exclusion list; the report was
    /// discarded.
    Excluded,
    /// The report was matched and buffered; `emitted` holds the
    /// aggregates finalized afterwards, in map order.
    Processed { emitted: Vec<Qso> },
}

/// The correlation engine.
pub struct Engine {
    /// The self station's call sign, fixed for the run.
    pub self_call: Vec<u8>,
    /// Excluded call signs, matched byte-exactly.
    pub excluded: Vec<Vec<u8>>,
    /// Current cycle: the highest report cycle seen.
    pub cycle: u64,
    /// Reports where self was the reporter.
    pub rx: Vec<Spot>,
    /// Reports where self was the transmitter.
    pub tx: Vec<Spot>,
    /// Aggregates in creation order, keyed uniquely.
    pub qsos: Vec<(QsoKey, Qso)>,
}

impl View for Engine {
    type V = EngineV;

    open spec fn view(&self) -> EngineV {
        EngineV {
            self_call: self.self_call@,
            excluded: calls_view(self.excluded@),
            cycle: self.cycle,
            rx: spots_view(self.rx@),
            tx: spots_view(self.tx@),
            qsos: entries_view(self.qsos@),
        }
    }
}

/// Every buffered report classifies to a band.
pub open spec fn buffer_classified(buf: Seq<SpotV>) -> bool {
    forall|i: int| 0 <= i < buf.len() ==> spec_classify((#[trigger] buf[i]).frequency) is Some
}

impl Engine {
    /// The engine's well-formedness: both buffers hold only classifiable
    /// reports, and no two aggregates share a key.
    pub open spec fn wf(&self) -> bool {
        &&& buffer_classified(self@.rx)
        &&& buffer_classified(self@.tx)
        &&& unique_keys(self@.qsos)
    }

    /// A fresh engine for a run: the self call sign and exclusion list
    /// are fixed; cycle, buffers and aggregate map start empty.
    pub fn new(self_call: Vec<u8>, excluded: Vec<Vec<u8>>) -> (e: Engine)
        ensures
            e.wf(),
            e@.self_call == self_call@,
            e@.excluded == calls_view(excluded@),
            e@.cycle == 0,
            e@.rx == Seq::<SpotV>::empty(),
            e@.tx == Seq::<SpotV>::empty(),
            e@.qsos == Seq::<(KeyV, QsoV)>::empty(),
    {
        let e = Engine {
            self_call,
            excluded,
            cycle: 0,
            rx: Vec::new(),
            tx: Vec::new(),
            qsos: Vec::new(),
        };
        proof {
            assert(spots_view(e.rx@) =~= Seq::<SpotV>::empty());
            assert(spots_view(e.tx@) =~= Seq::<SpotV>::empty());
            assert(entries_view(e.qsos@) =~= Seq::<(KeyV, QsoV)>::empty());
        }
        e
    }
}

/// Every element of a pruned buffer comes from the buffer it was cut from.
proof fn lemma_pruned_member(buf: Seq<SpotV>, cycle: u64)
    ensures
        forall|i: int|
            0 <= i < pruned(buf, cycle).len() ==> exists|j: int|
                0 <= j < buf.len() && #[trigger] pruned(buf, cycle)[i] == buf[j],
    decreases buf.len(),
{
    if buf.len() > 0 {
        lemma_pruned_member(buf.drop_last(), cycle);
        assert forall|i: int| 0 <= i < pruned(buf, cycle).len() implies exists|j: int|
            0 <= j < buf.len() && #[trigger] pruned(buf, cycle)[i] == buf[j] by {
            let head = pruned(buf.drop_last(), cycle);
            if i < head.len() {
                let j = choose|j: int| 0 <= j < buf.drop_last().len() && head[i] == buf.drop_last()[j];
                assert(pruned(buf, cycle)[i] == buf[j]);
            } else {
                assert(pruned(buf, cycle)[i] == buf[buf.len() - 1]);
            }
        }
    }
}

/// A pruned buffer of classifiable reports is classifiable.
proof fn lemma_pruned_classified(buf: Seq<SpotV>, cycle: u64)
    requires
        buffer_classified(buf),
    ensures
        buffer_classified(pruned(buf, cycle)),
{
    lemma_pruned_member(buf, cycle);
    assert forall|i: int| 0 <= i < pruned(buf, cycle).len() implies spec_classify(
        (#[trigger] pruned(buf, cycle)[i]).frequency,
    ) is Some by {
        let j = choose|j: int| 0 <= j < buf.len() && pruned(buf, cycle)[i] == buf[j];
        assert(spec_classify(buf[j].frequency) is Some);
    }
}

/// Everything a pruned buffer keeps is within the window.
pub proof fn lemma_pruned_fresh(buf: Seq<SpotV>, cycle: u64)
    ensures
        forall|i: int|
            0 <= i < pruned(buf, cycle).len() ==> keep_in_window(
                #[trigger] pruned(buf, cycle)[i],
                cycle,
            ),
    decreases buf.len(),
{
    if buf.len() > 0 {
        lemma_pruned_fresh(buf.drop_last(), cycle);
        let head = pruned(buf.drop_last(), cycle);
        assert forall|i: int| 0 <= i < pruned(buf, cycle).len() implies keep_in_window(
            #[trigger] pruned(buf, cycle)[i],
            cycle,
        ) by {
            if i < head.len() {
                assert(pruned(buf, cycle)[i] == head[i]);
            } else {
                assert(pruned(buf, cycle)[i] == buf.last());
            }
        }
    }
}

/// Discards every buffered report more than two cycles behind `cycle`.
fn prune_buf(buf: &mut Vec<Spot>, cycle: u64)
    ensures
        spots_view(final(buf)@) == pruned(spots_view(old(buf)@), cycle),
{
    let mut rest: Vec<Spot> = Vec::new();
    core::mem::swap(buf, &mut rest);
    let ghost orig = spots_view(rest@);
    let mut i: usize = 0;
    proof {
        assert(orig.subrange(0, 0) =~= Seq::<SpotV>::empty());
        assert(spots_view(buf@) =~= Seq::<SpotV>::empty());
    }
    while i < rest.len()
        invariant
            i <= rest.len(),
            orig == spots_view(rest@),
            spots_view(buf@) == pruned(orig.subrange(0, i as int), cycle),
        decreases rest.len() - i,
    {
        let ghost done = orig.subrange(0, i as int);
        let s = &rest[i];
        let c = s.cycle();
        proof {
            assert(orig.subrange(0, i + 1).drop_last() =~= done);
            assert(orig.subrange(0, i + 1).last() == rest@[i as int]@);
        }
        if c + 2 >= cycle {
            let kept = clone_spot(s);
            buf.push(kept);
            proof {
                assert(spots_view(buf@) =~= spots_view(buf@.drop_last()).push(rest@[i as int]@));
                assert(spots_view(buf@) =~= pruned(orig.subrange(0, i + 1), cycle));
            }
        } else {
            proof {
                assert(spots_view(buf@) =~= pruned(orig.subrange(0, i + 1), cycle));
            }
        }
        i += 1;
    }
    proof {
        assert(orig.subrange(0, orig.len() as int) =~= orig);
    }
}

/// Fresh copy of a report.
fn clone_spot(s: &Spot) -> (r: Spot)
    ensures
        r@ == s@,
{
    Spot {
        id: s.id,
        timestamp: s.timestamp,
        call_rx: crate::text::copy_bytes(&s.call_rx),
        grid_rx: crate::text::copy_bytes(&s.grid_rx),
        snr: s.snr,
        frequency: s.frequency,
        call_tx: crate::text::copy_bytes(&s.call_tx),
        grid_tx: crate::text::copy_bytes(&s.grid_tx),
        power: s.power,
        drift: s.drift,
        distance: s.distance,
    }
}

/// Exact equality of two correlation keys (both sides stored folded).
fn key_eq(a: &QsoKey, b: &QsoKey) -> (r: bool)
    ensures
        r == (a@ == b@),
{
    let r = crate::text::bytes_eq(a.call.as_slice(), b.call.as_slice())
        && crate::text::bytes_eq(a.grid_op.as_slice(), b.grid_op.as_slice())
        && crate::text::bytes_eq(a.grid_ct.as_slice(), b.grid_ct.as_slice())
        && a.band_op == b.band_op && a.band_ct == b.band_ct;
    r
}

/// A scan that rejects every key before `j` and accepts at `j` (or runs
/// out) finds exactly `find_key`.
proof fn lemma_find_key_is(entries: Seq<(KeyV, QsoV)>, k: KeyV, j: int)
    requires
        0 <= j <= entries.len(),
        forall|i: int| 0 <= i < j ==> (#[trigger] entries[i]).0 != k,
        j < entries.len() ==> entries[j].0 == k,
    ensures
        find_key(entries, k) == j,
    decreases entries.len(),
{
    if entries.len() > 0 && entries[0].0 != k {
        lemma_find_key_is(entries.skip(1), k, j - 1);
    }
}

/// Create-or-merge of one reciprocal pair into the aggregate map.
fn map_upsert(qsos: &mut Vec<(QsoKey, Qso)>, key: QsoKey, op: &Spot, ct: &Spot)
    ensures
        entries_view(final(qsos)@) == upsert(entries_view(old(qsos)@), key@, op@, ct@),
{
    let ghost entries = entries_view(old(qsos)@);
    let mut i: usize = 0;
    while i < qsos.len()
        invariant
            i <= qsos.len(),
            entries == entries_view(old(qsos)@),
            entries == entries_view(qsos@),
            forall|j: int| 0 <= j < i ==> (#[trigger] entries[j]).0 != key@,
        decreases qsos.len() - i,
    {
        if key_eq(&qsos[i].0, &key) {
            proof {
                lemma_find_key_is(entries, key@, i as int);
            }
            let entry = &mut qsos[i];
            entry.1.update(op, ct);
            proof {
                assert(qsos@[i as int].0@ == key@);
                assert(entries_view(qsos@) =~= entries.update(
                    i as int,
                    (key@, qso_update(entries[i as int].1, op@, ct@)),
                ));
            }
            return ;
        }
        i += 1;
    }
    proof {
        lemma_find_key_is(entries, key@, entries.len() as int);
    }
    let mut q = Qso::new(op, ct);
    q.update(op, ct);
    qsos.push((key, q));
    proof {
        assert(entries_view(qsos@) =~= entries.push(
            (qsos@.last().0@, qso_update(qso_new(op@, ct@), op@, ct@)),
        ));
    }
}

/// The correlation key is direction-invariant: for a reciprocal pair —
/// a report `s_rx` in which self heard the contact and a report `s_tx`
/// in which the contact heard self, with cross-matching grids — the key
/// derived when `s_rx` arrives second equals the key derived when `s_tx`
/// arrives second, band for band.  Both arrival orders therefore address
/// the same aggregate.
pub proof fn lemma_key_direction_invariant(s_rx: SpotV, s_tx: SpotV, band_rx: Band, band_tx: Band)
    requires
        matches_rx(s_tx, s_rx),
    ensures
        matches_tx(s_rx, s_tx),
        key_rx(s_rx, band_rx, band_tx) == key_tx(s_tx, band_rx, band_tx),
{
}

/// A report whose cycle is more than two behind the current cycle does
/// not survive a prune, so once the cycle advances past it, a newly
/// arriving report can no longer be matched against it: matching only
/// reads the pruned buffers.
pub proof fn lemma_stale_report_unmatchable(buf: Seq<SpotV>, cycle: u64, s: SpotV)
    requires
        s.cycle() + 2 < cycle,
    ensures
        forall|i: int| 0 <= i < pruned(buf, cycle).len() ==> #[trigger] pruned(buf, cycle)[i] != s,
{
    lemma_pruned_fresh(buf, cycle);
}

/// An aggregate is finalized within two cycles of its last contributing
/// report: after a processed ingest, no remaining aggregate's last
/// evidence is more than two cycles behind the current cycle — anything
/// older was just emitted.
pub proof fn lemma_no_stale_aggregate_remains(e0: EngineV, s: SpotV, e2: EngineV, r: IngestOutcome)
    requires
        ingest_post(e0, s, e2, r),
        r is Processed,
    ensures
        forall|i: int| 0 <= i < e2.qsos.len() ==> !qso_due((#[trigger] e2.qsos[i]).1, e2.cycle),
{
    let e1 = step_cycle(e0, s);
    let em = step_match(e1, s, spec_classify(s.frequency).unwrap());
    lemma_evict_keep_fresh(em.qsos, em.cycle);
}

/// A reciprocal pair whose counterpart call sign is on the exclusion
/// list never produces an aggregate: the report is discarded and the
/// aggregate map is exactly what it was.
pub proof fn lemma_excluded_never_aggregates(e0: EngineV, s: SpotV, e2: EngineV, r: IngestOutcome)
    requires
        ingest_post(e0, s, e2, r),
        spot_is_self(s, e0.self_call),
        spec_classify(s.frequency) is Some,
        is_excluded(e0.excluded, counterpart_call(s, e0.self_call)),
    ensures
        r is Excluded,
        e2.qsos == e0.qsos,
{
}

/// Create-or-merge leaves exactly one aggregate under the pair's key: the
/// map's keys stay unique, and the key is present.
pub proof fn lemma_upsert_one_aggregate(entries: Seq<(KeyV, QsoV)>, k: KeyV, op: SpotV, ct: SpotV)
    requires
        unique_keys(entries),
    ensures
        unique_keys(upsert(entries, k, op, ct)),
        ({
            let up = upsert(entries, k, op, ct);
            let f = find_key(up, k);
            0 <= f < up.len() && up[f].0 == k
        }),
{
    lemma_upsert_unique(entries, k, op, ct);
    lemma_find_key_props(entries, k);
    let up = upsert(entries, k, op, ct);
    lemma_find_key_props(up, k);
    let f0 = find_key(entries, k);
    if f0 == entries.len() {
        assert(up[up.len() - 1].0 == k);
    } else {
        assert(up[f0].0 == k);
    }
    if find_key(up, k) == up.len() {
        assert(false);
    }
}

/// A finalization scan loses nothing: every aggregate is either kept or
/// emitted.
pub proof fn lemma_evict_partition(entries: Seq<(KeyV, QsoV)>, cycle: u64)
    ensures
        evict_keep(entries, cycle).len() + evict_out(entries, cycle).len() == entries.len(),
    decreases entries.len(),
{
    if entries.len() > 0 {
        lemma_evict_partition(entries.drop_last(), cycle);
    }
}

/// `find_key` is the first index bearing the key, or the length.
proof fn lemma_find_key_props(entries: Seq<(KeyV, QsoV)>, k: KeyV)
    ensures
        0 <= find_key(entries, k) <= entries.len(),
        forall|i: int| 0 <= i < find_key(entries, k) ==> (#[trigger] entries[i]).0 != k,
        find_key(entries, k) < entries.len() ==> entries[find_key(entries, k)].0 == k,
    decreases entries.len(),
{
    if entries.len() > 0 && entries[0].0 != k {
        lemma_find_key_props(entries.skip(1), k);
        assert forall|i: int| 0 <= i < find_key(entries, k) implies (#[trigger] entries[i]).0
            != k by {
            if i > 0 {
                assert(entries[i] == entries.skip(1)[i - 1]);
            }
        }
    }
}

/// Create-or-merge keeps the map's keys unique.
proof fn lemma_upsert_unique(entries: Seq<(KeyV, QsoV)>, k: KeyV, op: SpotV, ct: SpotV)
    requires
        unique_keys(entries),
    ensures
        unique_keys(upsert(entries, k, op, ct)),
{
    lemma_find_key_props(entries, k);
    let f = find_key(entries, k);
    let up = upsert(entries, k, op, ct);
    if f == entries.len() {
        assert forall|i: int, j: int| 0 <= i < j < up.len() implies (#[trigger] up[i]).0 != (
        #[trigger] up[j]).0 by {
            if j == up.len() - 1 {
                assert(entries[i].0 != k);
            }
        }
    } else {
        assert forall|i: int, j: int| 0 <= i < j < up.len() implies (#[trigger] up[i]).0 != (
        #[trigger] up[j]).0 by {
            assert(entries[i].0 != entries[j].0);
        }
    }
}

/// The matching pass keeps the map's keys unique (self-heard case).
proof fn lemma_merge_rx_unique(
    entries: Seq<(KeyV, QsoV)>,
    prior: Seq<SpotV>,
    new: SpotV,
    band_new: Band,
)
    requires
        unique_keys(entries),
    ensures
        unique_keys(merge_rx(entries, prior, new, band_new)),
    decreases prior.len(),
{
    if prior.len() > 0 {
        lemma_merge_rx_unique(entries, prior.drop_last(), new, band_new);
        let done = merge_rx(entries, prior.drop_last(), new, band_new);
        let p = prior.last();
        if matches_rx(p, new) {
            lemma_upsert_unique(
                done,
                key_rx(new, band_new, spec_classify(p.frequency).unwrap()),
                new,
                p,
            );
        }
    }
}

/// The matching pass keeps the map's keys unique (heard-by-contact case).
proof fn lemma_merge_tx_unique(
    entries: Seq<(KeyV, QsoV)>,
    prior: Seq<SpotV>,
    new: SpotV,
    band_new: Band,
)
    requires
        unique_keys(entries),
    ensures
        unique_keys(merge_tx(entries, prior, new, band_new)),
    decreases prior.len(),
{
    if prior.len() > 0 {
        lemma_merge_tx_unique(entries, prior.drop_last(), new, band_new);
        let done = merge_tx(entries, prior.drop_last(), new, band_new);
        let p = prior.last();
        if matches_tx(p, new) {
            lemma_upsert_unique(
                done,
                key_tx(new, spec_classify(p.frequency).unwrap(), band_new),
                p,
                new,
            );
        }
    }
}

/// Every entry a finalization scan keeps comes from the map it scanned.
proof fn lemma_evict_keep_member(entries: Seq<(KeyV, QsoV)>, cycle: u64)
    ensures
        forall|i: int|
            0 <= i < evict_keep(entries, cycle).len() ==> exists|j: int|
                0 <= j < entries.len() && #[trigger] evict_keep(entries, cycle)[i] == entries[j],
    decreases entries.len(),
{
    if entries.len() > 0 {
        lemma_evict_keep_member(entries.drop_last(), cycle);
        let head = evict_keep(entries.drop_last(), cycle);
        assert forall|i: int| 0 <= i < evict_keep(entries, cycle).len() implies exists|j: int|
            0 <= j < entries.len() && #[trigger] evict_keep(entries, cycle)[i] == entries[j] by {
            if i < head.len() {
                let j = choose|j: int|
                    0 <= j < entries.drop_last().len() && head[i] == entries.drop_last()[j];
                assert(evict_keep(entries, cycle)[i] == entries[j]);
            } else {
                assert(evict_keep(entries, cycle)[i] == entries[entries.len() - 1]);
            }
        }
    }
}

/// A finalization scan keeps the map's keys unique.
proof fn lemma_evict_keep_unique(entries: Seq<(KeyV, QsoV)>, cycle: u64)
    requires
        unique_keys(entries),
    ensures
        unique_keys(evict_keep(entries, cycle)),
    decreases entries.len(),
{
    if entries.len() > 0 {
        assert(unique_keys(entries.drop_last()));
        lemma_evict_keep_unique(entries.drop_last(), cycle);
        lemma_evict_keep_member(entries.drop_last(), cycle);
        let head = evict_keep(entries.drop_last(), cycle);
        let kept = evict_keep(entries, cycle);
        assert forall|i: int, j: int| 0 <= i < j < kept.len() implies (#[trigger] kept[i]).0 != (
        #[trigger] kept[j]).0 by {
            if j < head.len() {
                assert(head[i].0 != head[j].0);
            } else {
                let m = choose|m: int|
                    0 <= m < entries.drop_last().len() && head[i] == entries.drop_last()[m];
                assert(entries[m].0 != entries[entries.len() - 1].0);
            }
        }
    }
}

/// Whatever a finalization scan keeps is at most two cycles old.
pub proof fn lemma_evict_keep_fresh(entries: Seq<(KeyV, QsoV)>, cycle: u64)
    ensures
        forall|i: int|
            0 <= i < evict_keep(entries, cycle).len() ==> !qso_due(
                (#[trigger] evict_keep(entries, cycle)[i]).1,
                cycle,
            ),
    decreases entries.len(),
{
    if entries.len() > 0 {
        lemma_evict_keep_fresh(entries.drop_last(), cycle);
        let head = evict_keep(entries.drop_last(), cycle);
        assert forall|i: int| 0 <= i < evict_keep(entries, cycle).len() implies !qso_due(
            (#[trigger] evict_keep(entries, cycle)[i]).1,
            cycle,
        ) by {
            if i < head.len() {
                assert(evict_keep(entries, cycle)[i] == head[i]);
            } else {
                assert(evict_keep(entries, cycle)[i] == entries.last());
            }
        }
    }
}

/// Whatever a finalization scan emits is more than two cycles old.
pub proof fn lemma_evict_out_due(entries: Seq<(KeyV, QsoV)>, cycle: u64)
    ensures
        forall|i: int|
            0 <= i < evict_out(entries, cycle).len() ==> qso_due(
                #[trigger] evict_out(entries, cycle)[i],
                cycle,
            ),
    decreases entries.len(),
{
    if entries.len() > 0 {
        lemma_evict_out_due(entries.drop_last(), cycle);
        let head = evict_out(entries.drop_last(), cycle);
        assert forall|i: int| 0 <= i < evict_out(entries, cycle).len() implies qso_due(
            #[trigger] evict_out(entries, cycle)[i],
            cycle,
        ) by {
            if i < head.len() {
                assert(evict_out(entries, cycle)[i] == head[i]);
            } else {
                assert(evict_out(entries, cycle)[i] == entries.last().1);
            }
        }
    }
}

/// Matches one self-heard report against the heard-by-contact buffer,
/// merging every reciprocal pair into the map in buffer order.
fn merge_matches_rx(qsos: &mut Vec<(QsoKey, Qso)>, prior: &Vec<Spot>, new: &Spot, band_new: Band)
    requires
        buffer_classified(spots_view(prior@)),
    ensures
        entries_view(final(qsos)@) == merge_rx(
            entries_view(old(qsos)@),
            spots_view(prior@),
            new@,
            band_new,
        ),
{
    let ghost entries0 = entries_view(old(qsos)@);
    let ghost pv = spots_view(prior@);
    proof {
        assert(pv.subrange(0, 0) =~= Seq::<SpotV>::empty());
    }
    let mut i: usize = 0;
    while i < prior.len()
        invariant
            i <= prior.len(),
            pv == spots_view(prior@),
            buffer_classified(pv),
            entries0 == entries_view(old(qsos)@),
            entries_view(qsos@) == merge_rx(entries0, pv.subrange(0, i as int), new@, band_new),
        decreases prior.len() - i,
    {
        let p = &prior[i];
        proof {
            assert(pv.subrange(0, i + 1).drop_last() =~= pv.subrange(0, i as int));
            assert(pv.subrange(0, i + 1).last() == pv[i as int]);
        }
        let m = crate::text::bytes_eq_ci(p.call_rx.as_slice(), new.call_tx.as_slice())
            && crate::text::bytes_eq_ci(p.grid_rx.as_slice(), new.grid_tx.as_slice())
            && crate::text::bytes_eq_ci(p.grid_tx.as_slice(), new.grid_rx.as_slice());
        if m {
            assert(matches_rx(pv[i as int], new@));
            let band_prior = match classify(p.frequency) {
                Some(b) => b,
                None => {
                    proof {
                        assert(spec_classify(pv[i as int].frequency) is Some);
                    }
                    vstd::pervasive::unreached()
                },
            };
            let key = QsoKey {
                call: crate::text::fold_bytes(new.call_tx.as_slice()),
                grid_op: crate::text::fold_bytes(new.grid_rx.as_slice()),
                grid_ct: crate::text::fold_bytes(new.grid_tx.as_slice()),
                band_op: band_new,
                band_ct: band_prior,
            };
            assert(key@ == key_rx(new@, band_new, spec_classify(pv[i as int].frequency).unwrap()));
            map_upsert(qsos, key, new, p);
        }
        i += 1;
    }
    proof {
        assert(pv.subrange(0, pv.len() as int) =~= pv);
    }
}

/// Matches one heard-by-contact report against the self-heard buffer,
/// merging every reciprocal pair into the map in buffer order.
fn merge_matches_tx(qsos: &mut Vec<(QsoKey, Qso)>, prior: &Vec<Spot>, new: &Spot, band_new: Band)
    requires
        buffer_classified(spots_view(prior@)),
    ensures
        entries_view(final(qsos)@) == merge_tx(
            entries_view(old(qsos)@),
            spots_view(prior@),
            new@,
            band_new,
        ),
{
    let ghost entries0 = entries_view(old(qsos)@);
    let ghost pv = spots_view(prior@);
    proof {
        assert(pv.subrange(0, 0) =~= Seq::<SpotV>::empty());
    }
    let mut i: usize = 0;
    while i < prior.len()
        invariant
            i <= prior.len(),
            pv == spots_view(prior@),
            buffer_classified(pv),
            entries0 == entries_view(old(qsos)@),
            entries_view(qsos@) == merge_tx(entries0, pv.subrange(0, i as int), new@, band_new),
        decreases prior.len() - i,
    {
        let p = &prior[i];
        proof {
            assert(pv.subrange(0, i + 1).drop_last() =~= pv.subrange(0, i as int));
            assert(pv.subrange(0, i + 1).last() == pv[i as int]);
        }
        let m = crate::text::bytes_eq_ci(p.call_tx.as_slice(), new.call_rx.as_slice())
            && crate::text::bytes_eq_ci(p.grid_rx.as_slice(), new.grid_tx.as_slice())
            && crate::text::bytes_eq_ci(p.grid_tx.as_slice(), new.grid_rx.as_slice());
        if m {
            assert(matches_tx(pv[i as int], new@));
            let band_prior = match classify(p.frequency) {
                Some(b) => b,
                None => {
                    proof {
                        assert(spec_classify(pv[i as int].frequency) is Some);
                    }
                    vstd::pervasive::unreached()
                },
            };
            let key = QsoKey {
                call: crate::text::fold_bytes(new.call_rx.as_slice()),
                grid_op: crate::text::fold_bytes(new.grid_tx.as_slice()),
                grid_ct: crate::text::fold_bytes(new.grid_rx.as_slice()),
                band_op: band_prior,
                band_ct: band_new,
            };
            assert(key@ == key_tx(new@, spec_classify(pv[i as int].frequency).unwrap(), band_new));
            map_upsert(qsos, key, p, new);
        }
        i += 1;
    }
    proof {
        assert(pv.subrange(0, pv.len() as int) =~= pv);
    }
}

/// Removes every aggregate whose last evidence is more than two cycles
/// old, returning them in map order for emission.
fn evict_due(qsos: &mut Vec<(QsoKey, Qso)>, cycle: u64) -> (out: Vec<Qso>)
    ensures
        entries_view(final(qsos)@) == evict_keep(entries_view(old(qsos)@), cycle),
        qsos_view(out@) == evict_out(entries_view(old(qsos)@), cycle),
{
    let mut rest: Vec<(QsoKey, Qso)> = Vec::new();
    core::mem::swap(qsos, &mut rest);
    let ghost orig = entries_view(rest@);
    let ghost mut done: int = 0;
    let mut out: Vec<Qso> = Vec::new();
    proof {
        assert(orig.subrange(0, 0) =~= Seq::<(KeyV, QsoV)>::empty());
        assert(entries_view(qsos@) =~= Seq::<(KeyV, QsoV)>::empty());
        assert(qsos_view(out@) =~= Seq::<QsoV>::empty());
        assert(entries_view(rest@) =~= orig.skip(0));
    }
    while rest.len() > 0
        invariant
            0 <= done <= orig.len(),
            orig == entries_view(old(qsos)@),
            entries_view(rest@) == orig.skip(done),
            entries_view(qsos@) == evict_keep(orig.subrange(0, done), cycle),
            qsos_view(out@) == evict_out(orig.subrange(0, done), cycle),
        decreases rest@.len(),
    {
        let ghost rest0 = rest@;
        let (k, q) = rest.remove(0);
        proof {
            assert(orig.skip(done).len() == rest0.len());
            assert((k@, q@) == entries_view(rest0)[0]);
            assert((k@, q@) == orig[done]);
            assert(rest@ =~= rest0.skip(1));
            assert forall|j: int| 0 <= j < entries_view(rest@).len() implies entries_view(
                rest@,
            )[j] == orig.skip(done + 1)[j] by {
                assert(rest@[j] == rest0[j + 1]);
                assert(entries_view(rest@)[j] == entries_view(rest0)[j + 1]);
                assert(entries_view(rest0)[j + 1] == orig.skip(done)[j + 1]);
                assert(orig.skip(done)[j + 1] == orig[done + 1 + j]);
            }
            assert(entries_view(rest@) =~= orig.skip(done + 1));
            assert(orig.subrange(0, done + 1).drop_last() =~= orig.subrange(0, done));
            assert(orig.subrange(0, done + 1).last() == orig[done]);
        }
        let c = q.cycle_last();
        proof {
            assert(q.time_last / 120 <= u64::MAX / 120) by (nonlinear_arith)
                requires
                    q.time_last <= u64::MAX,
            ;
        }
        if c + 2 >= cycle {
            qsos.push((k, q));
            proof {
                assert(entries_view(qsos@) =~= entries_view(qsos@.drop_last()).push(
                    orig[done],
                ));
                assert(entries_view(qsos@) =~= evict_keep(orig.subrange(0, done + 1), cycle));
                assert(qsos_view(out@) =~= evict_out(orig.subrange(0, done + 1), cycle));
            }
        } else {
            out.push(q);
            proof {
                assert(qsos_view(out@) =~= qsos_view(out@.drop_last()).push(orig[done].1));
                assert(qsos_view(out@) =~= evict_out(orig.subrange(0, done + 1), cycle));
                assert(entries_view(qsos@) =~= evict_keep(orig.subrange(0, done + 1), cycle));
            }
        }
        proof {
            done = done + 1;
        }
    }
    proof {
        assert(orig.skip(done).len() == 0);
        assert(done == orig.len());
        assert(orig.subrange(0, done) =~= orig);
    }
    out
}

/// Byte-exact membership of a call sign in the exclusion list.
fn call_excluded(excluded: &Vec<Vec<u8>>, call: &[u8]) -> (r: bool)
    ensures
        r == is_excluded(calls_view(excluded@), call@),
{
    let mut i: usize = 0;
    while i < excluded.len()
        invariant
            i <= excluded.len(),
            forall|j: int| 0 <= j < i ==> calls_view(excluded@)[j] != call@,
        decreases excluded.len() - i,
    {
        if crate::text::bytes_eq(excluded[i].as_slice(), call) {
            assert(calls_view(excluded@)[i as int] == call@);
            return true;
        }
        i += 1;
    }
    false
}

impl Engine {
    /// Ingests one report: advances the cycle and prunes when the report
    /// opens a new cycle, discards reports not naming self, of unknown
    /// band, or with an excluded counterpart, matches and buffers the
    /// rest, and returns the aggregates finalized afterwards — exactly
    /// those whose last evidence is now more than two cycles old, each
    /// removed from the map as it is handed out.
    pub fn ingest(&mut self, spot: Spot) -> (r: IngestOutcome)
        requires
            old(self).wf(),
        ensures
            final(self).wf(),
            ingest_post(old(self)@, spot@, final(self)@, r),
    {
        let ghost e0 = old(self)@;
        let ghost s = spot@;
        let is_rx = crate::text::bytes_eq_ci(spot.call_rx.as_slice(), self.self_call.as_slice());
        let is_tx = crate::text::bytes_eq_ci(spot.call_tx.as_slice(), self.self_call.as_slice());
        if !is_rx && !is_tx {
            return IngestOutcome::NotSelf;
        }
        let sc = spot.cycle();
        if sc > self.cycle {
            self.cycle = sc;
            prune_buf(&mut self.rx, sc);
            prune_buf(&mut self.tx, sc);
            proof {
                lemma_pruned_classified(e0.rx, sc);
                lemma_pruned_classified(e0.tx, sc);
            }
        }
        let ghost e1 = step_cycle(e0, s);
        assert(self@ == e1);
        assert(self.wf());
        let band = match classify(spot.frequency) {
            Some(b) => b,
            None => {
                return IngestOutcome::UnknownBand;
            },
        };
        let excluded_here = if is_rx {
            call_excluded(&self.excluded, spot.call_tx.as_slice())
        } else {
            call_excluded(&self.excluded, spot.call_rx.as_slice())
        };
        if excluded_here {
            return IngestOutcome::Excluded;
        }
        if is_rx {
            merge_matches_rx(&mut self.qsos, &self.tx, &spot, band);
            self.rx.push(spot);
            proof {
                assert(spots_view(self.rx@) =~= e1.rx.push(s));
                lemma_merge_rx_unique(e1.qsos, e1.tx, s, band);
            }
        } else {
            merge_matches_tx(&mut self.qsos, &self.rx, &spot, band);
            self.tx.push(spot);
            proof {
                assert(spots_view(self.tx@) =~= e1.tx.push(s));
                lemma_merge_tx_unique(e1.qsos, e1.rx, s, band);
            }
        }
        let ghost em = step_match(e1, s, band);
        assert(self@ == em);
        let emitted = evict_due(&mut self.qsos, self.cycle);
        proof {
            lemma_evict_keep_unique(em.qsos, em.cycle);
        }
        IngestOutcome::Processed { emitted }
    }
}

} // verus!
