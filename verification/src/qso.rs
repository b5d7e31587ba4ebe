//! The evolving aggregate of one two-way contact (QSO).
//!
//! An aggregate is created from the first reciprocal pair of reports and
//! merged with every later pair that shares its correlation key.  The merge
//! keeps the running maximum of each side's SNR and drift (best evidence)
//! and the running minimum of each side's power (most conservative
//! evidence); this asymmetry is the intended display policy.

use vstd::prelude::*;
use crate::power::Power;
use crate::spot::{Spot, SpotV};

verus! {

/// Mathematical image of a [`Qso`].
pub struct QsoV {
    pub call_op: Seq<u8>,
    pub call_ct: Seq<u8>,
    pub grid_op: Seq<u8>,
    pub grid_ct: Seq<u8>,
    pub time_first: u64,
    pub time_last: u64,
    pub snr_op: i8,
    pub snr_ct: i8,
    pub power_op: i8,
    pub power_ct: i8,
    pub freq_op: u64,
    pub freq_ct: u64,
    pub drift_op: i8,
    pub drift_ct: i8,
    pub distance: u16,
    pub spots: Seq<u64>,
}

/// One two-way contact being aggregated.  The operator is the self
/// station, the contact the counterpart; `_op` fields describe the
/// operator's transmission as the contact received it, `_ct` fields the
/// contact's transmission as the operator received it.
#[derive(Debug)]
pub struct Qso {
    /// Operator call sign.
    pub call_op: Vec<u8>,
    /// Contact call sign.
    pub call_ct: Vec<u8>,
    /// Operator grid locator.
    pub grid_op: Vec<u8>,
    /// Contact grid locator.
    pub grid_ct: Vec<u8>,
    /// Earliest contributing timestamp.
    pub time_first: u64,
    /// Latest contributing timestamp.
    pub time_last: u64,
    /// Best SNR of the operator's signal, dB.
    pub snr_op: i8,
    /// Best SNR of the contact's signal, dB.
    pub snr_ct: i8,
    /// Lowest reported operator transmit power.
    pub power_op: Power,
    /// Lowest reported contact transmit power.
    pub power_ct: Power,
    /// Operator transmit frequency in Hz.
    pub freq_op: u64,
    /// Contact transmit frequency in Hz.
    pub freq_ct: u64,
    /// Largest operator frequency drift, Hz/s.
    pub drift_op: i8,
    /// Largest contact frequency drift, Hz/s.
    pub drift_ct: i8,
    /// Great-circle distance in km.
    pub distance: u16,
    /// Ids of all contributing reports, ascending, without duplicates.
    pub spots: Vec<u64>,
}

impl View for Qso {
    type V = QsoV;

    open spec fn view(&self) -> QsoV {
        QsoV {
            call_op: self.call_op@,
            call_ct: self.call_ct@,
            grid_op: self.grid_op@,
            grid_ct: self.grid_ct@,
            time_first: self.time_first,
            time_last: self.time_last,
            snr_op: self.snr_op,
            snr_ct: self.snr_ct,
            power_op: self.power_op.dbm,
            power_ct: self.power_ct.dbm,
            freq_op: self.freq_op,
            freq_ct: self.freq_ct,
            drift_op: self.drift_op,
            drift_ct: self.drift_ct,
            distance: self.distance,
            spots: self.spots@,
        }
    }
}

/// An ascending, duplicate-free id sequence with `id` inserted.
pub open spec fn insert_sorted(s: Seq<u64>, id: u64) -> Seq<u64>
    decreases s.len(),
{
    if s.len() == 0 {
        seq![id]
    } else if s.last() < id {
        s.push(id)
    } else if s.last() == id {
        s
    } else {
        insert_sorted(s.drop_last(), id).push(s.last())
    }
}

/// The aggregate made from the first reciprocal pair: `op` is the report
/// where self heard the contact, `ct` the report where the contact heard
/// self.  Identities and distance come from `op`; each direction's signal
/// figures come from the report that observed that direction.
pub open spec fn qso_new(op: SpotV, ct: SpotV) -> QsoV {
    QsoV {
        call_op: op.call_rx,
        call_ct: op.call_tx,
        grid_op: op.grid_rx,
        grid_ct: op.grid_tx,
        time_first: if op.timestamp <= ct.timestamp { op.timestamp } else { ct.timestamp },
        time_last: if op.timestamp >= ct.timestamp { op.timestamp } else { ct.timestamp },
        snr_op: ct.snr,
        snr_ct: op.snr,
        power_op: ct.power,
        power_ct: op.power,
        freq_op: ct.frequency,
        freq_ct: op.frequency,
        drift_op: ct.drift,
        drift_ct: op.drift,
        distance: op.distance,
        spots: insert_sorted(insert_sorted(Seq::empty(), op.id), ct.id),
    }
}

/// The aggregate after merging one more reciprocal pair: the time span
/// widens, SNR and drift keep their maxima, power its minima, and the two
/// report ids join the id set.
pub open spec fn qso_update(q: QsoV, op: SpotV, ct: SpotV) -> QsoV {
    QsoV {
        time_first: {
            let p = if op.timestamp <= ct.timestamp { op.timestamp } else { ct.timestamp };
            if q.time_first <= p { q.time_first } else { p }
        },
        time_last: {
            let p = if op.timestamp >= ct.timestamp { op.timestamp } else { ct.timestamp };
            if q.time_last >= p { q.time_last } else { p }
        },
        snr_op: if q.snr_op >= ct.snr { q.snr_op } else { ct.snr },
        snr_ct: if q.snr_ct >= op.snr { q.snr_ct } else { op.snr },
        drift_op: if q.drift_op >= ct.drift { q.drift_op } else { ct.drift },
        drift_ct: if q.drift_ct >= op.drift { q.drift_ct } else { op.drift },
        power_op: if q.power_op <= ct.power { q.power_op } else { ct.power },
        power_ct: if q.power_ct <= op.power { q.power_ct } else { op.power },
        spots: insert_sorted(insert_sorted(q.spots, op.id), ct.id),
        ..q
    }
}

/// Inserts `id` into an ascending, duplicate-free id list, keeping it so.
fn vec_insert_sorted(v: &mut Vec<u64>, id: u64)
    ensures
        final(v)@ == insert_sorted(old(v)@, id),
    decreases old(v)@.len(),
{
    if v.len() == 0 {
        v.push(id);
        assert(v@ =~= insert_sorted(old(v)@, id));
    } else {
        let last = v[v.len() - 1];
        assert(last == old(v)@.last());
        if last < id {
            v.push(id);
        } else if last == id {
        } else {
            let popped = v.pop().unwrap();
            assert(v@ == old(v)@.drop_last());
            vec_insert_sorted(v, id);
            v.push(popped);
        }
    }
}

impl Qso {
    /// Creates the aggregate for a first reciprocal pair.
    pub fn new(op: &Spot, ct: &Spot) -> (q: Qso)
        ensures
            q@ == qso_new(op@, ct@),
    {
        let mut spots: Vec<u64> = Vec::new();
        vec_insert_sorted(&mut spots, op.id);
        vec_insert_sorted(&mut spots, ct.id);
        let q = Qso {
            call_op: crate::text::copy_bytes(&op.call_rx),
            call_ct: crate::text::copy_bytes(&op.call_tx),
            grid_op: crate::text::copy_bytes(&op.grid_rx),
            grid_ct: crate::text::copy_bytes(&op.grid_tx),
            time_first: if op.timestamp <= ct.timestamp { op.timestamp } else { ct.timestamp },
            time_last: if op.timestamp >= ct.timestamp { op.timestamp } else { ct.timestamp },
            snr_op: ct.snr,
            snr_ct: op.snr,
            power_op: ct.power,
            power_ct: op.power,
            freq_op: ct.frequency,
            freq_ct: op.frequency,
            drift_op: ct.drift,
            drift_ct: op.drift,
            distance: op.distance,
            spots,
        };
        q
    }

    /// Merges one more reciprocal pair into this aggregate.
    pub fn update(&mut self, op: &Spot, ct: &Spot)
        ensures
            final(self)@ == qso_update(old(self)@, op@, ct@),
    {
        let pair_first = if op.timestamp <= ct.timestamp { op.timestamp } else { ct.timestamp };
        let pair_last = if op.timestamp >= ct.timestamp { op.timestamp } else { ct.timestamp };
        if pair_first < self.time_first {
            self.time_first = pair_first;
        }
        if pair_last > self.time_last {
            self.time_last = pair_last;
        }
        if ct.snr > self.snr_op {
            self.snr_op = ct.snr;
        }
        if op.snr > self.snr_ct {
            self.snr_ct = op.snr;
        }
        if ct.drift > self.drift_op {
            self.drift_op = ct.drift;
        }
        if op.drift > self.drift_ct {
            self.drift_ct = op.drift;
        }
        if ct.power.dbm < self.power_op.dbm {
            self.power_op = ct.power;
        }
        if op.power.dbm < self.power_ct.dbm {
            self.power_ct = op.power;
        }
        vec_insert_sorted(&mut self.spots, op.id);
        vec_insert_sorted(&mut self.spots, ct.id);
    }

    /// The time bucket of the latest contributing report.
    pub fn cycle_last(&self) -> (c: u64)
        ensures
            c == crate::spot::spec_cycle_of(self.time_last),
    {
        self.time_last / 120
    }
}

} // verus!
