//! Run statistics: how many contacts were logged, with how many distinct
//! contact call signs (counted ASCII-case-insensitively).

use vstd::prelude::*;
use vstd::string::StringSliceAdditionalSpecFns;
use crate::text::{dec_digits, folded, push_bytes, push_dec_u64};

verus! {

/// The folded call sign is already counted.
pub open spec fn contains_call(calls: Seq<Seq<u8>>, fc: Seq<u8>) -> bool {
    exists|i: int| 0 <= i < calls.len() && calls[i] == fc
}

/// The distinct-call list after counting one more contact call sign.
pub open spec fn add_contact(calls: Seq<Seq<u8>>, call: Seq<u8>) -> Seq<Seq<u8>> {
    if contains_call(calls, folded(call)) {
        calls
    } else {
        calls.push(folded(call))
    }
}

/// The folded views of the counted call signs.
pub open spec fn stats_calls(s: Seq<Vec<u8>>) -> Seq<Seq<u8>> {
    s.map_values(|c: Vec<u8>| c@)
}

/// The end-of-run summary line.
pub open spec fn spec_summary(logged: u64, distinct: nat) -> Seq<u8> {
    "Logged ".spec_bytes() + dec_digits(logged as nat) + " QSOs with ".spec_bytes() + dec_digits(
        distinct,
    ) + " unique call signs".spec_bytes()
}

/// Counts emitted contacts and their distinct contact call signs.
pub struct Stats {
    /// Contacts logged so far.
    pub logged: u64,
    /// Distinct contact call signs seen, stored case-folded, no
    /// duplicates.
    pub contacts: Vec<Vec<u8>>,
}

impl Stats {
    /// The list holds no duplicates.
    pub open spec fn wf(&self) -> bool {
        forall|i: int, j: int|
            0 <= i < j < self.contacts@.len() ==> stats_calls(self.contacts@)[i] != stats_calls(
                self.contacts@,
            )[j]
    }

    /// Fresh, empty statistics.
    pub fn new() -> (s: Stats)
        ensures
            s.wf(),
            s.logged == 0,
            stats_calls(s.contacts@) == Seq::<Seq<u8>>::empty(),
    {
        let s = Stats { logged: 0, contacts: Vec::new() };
        proof {
            assert(stats_calls(s.contacts@) =~= Seq::<Seq<u8>>::empty());
        }
        s
    }

    /// Counts one emitted contact with the given contact call sign.
    pub fn record(&mut self, call_ct: &Vec<u8>)
        requires
            old(self).wf(),
            old(self).logged < u64::MAX,
        ensures
            final(self).wf(),
            final(self).logged == old(self).logged + 1,
            stats_calls(final(self).contacts@) == add_contact(
                stats_calls(old(self).contacts@),
                call_ct@,
            ),
    {
        self.logged = self.logged + 1;
        let fc = crate::text::fold_bytes(call_ct.as_slice());
        let ghost calls = stats_calls(self.contacts@);
        let mut i: usize = 0;
        while i < self.contacts.len()
            invariant
                i <= self.contacts.len(),
                fc@ == folded(call_ct@),
                calls == stats_calls(self.contacts@),
                calls == stats_calls(old(self).contacts@),
                self.logged == old(self).logged + 1,
                forall|a: int, b: int| 0 <= a < b < calls.len() ==> calls[a] != calls[b],
                forall|j: int| 0 <= j < i ==> calls[j] != fc@,
            decreases self.contacts.len() - i,
        {
            if crate::text::bytes_eq(self.contacts[i].as_slice(), fc.as_slice()) {
                assert(calls[i as int] == fc@);
                assert(contains_call(calls, folded(call_ct@)));
                return ;
            }
            i += 1;
        }
        assert(!contains_call(calls, folded(call_ct@)));
        self.contacts.push(fc);
        proof {
            assert(stats_calls(self.contacts@) =~= calls.push(folded(call_ct@)));
        }
    }

    /// The end-of-run summary line.
    pub fn summary_line(&self) -> (r: Vec<u8>)
        ensures
            r@ == spec_summary(self.logged, self.contacts@.len()),
    {
        let mut out: Vec<u8> = Vec::new();
        push_bytes(&mut out, "Logged ".as_bytes());
        assert(out@ =~= "Logged ".spec_bytes());
        push_dec_u64(&mut out, self.logged);
        push_bytes(&mut out, " QSOs with ".as_bytes());
        push_dec_u64(&mut out, self.contacts.len() as u64);
        push_bytes(&mut out, " unique call signs".as_bytes());
        assert(out@ == spec_summary(self.logged, self.contacts@.len()));
        out
    }
}

} // verus!
