//! Bounded memory of recent pipeline evidence and diagnostic events.
use vstd::prelude::*;

verus! {

/// One recorded event; its detail is serialized JSON.
#[derive(Debug)]
pub struct Evidence {
    pub at_ms: u128,
    pub kind: String,
    pub subject: String,
    pub detail: String,
}

/// The content of an [`Evidence`].
pub struct EvidenceView {
    pub at_ms: u128,
    pub kind: Seq<char>,
    pub subject: Seq<char>,
    pub detail: Seq<char>,
}

impl View for Evidence {
    type V = EvidenceView;

    open spec fn view(&self) -> EvidenceView {
        EvidenceView { at_ms: self.at_ms, kind: self.kind@, subject: self.subject@, detail: self.detail@ }
    }
}

impl Evidence {
    /// A copy of the event.
    pub fn duplicate(&self) -> (out: Evidence)
        ensures
            out@ == self@,
    {
        Evidence { at_ms: self.at_ms, kind: self.kind.clone(), subject: self.subject.clone(), detail: self.detail.clone() }
    }
}

/// The most recent events, at most `cap` of them (oldest first).
pub struct EvidenceRing {
    entries: Vec<Evidence>,
    cap: usize,
}

/// The events after recording `e`: when the ring is exactly full, the oldest is dropped first.
pub open spec fn after_record(s: Seq<EvidenceView>, cap: nat, e: EvidenceView) -> Seq<EvidenceView> {
    if s.len() == cap && cap > 0 { s.drop_first().push(e) } else { s.push(e) }
}

impl EvidenceRing {
    /// The events held, oldest first.
    pub closed spec fn events(&self) -> Seq<EvidenceView> {
        Seq::new(self.entries@.len(), |i: int| self.entries@[i]@)
    }

    /// The capacity the ring was made with.
    pub closed spec fn capacity(&self) -> nat {
        self.cap as nat
    }

    /// An empty ring for `cap` events.
    pub fn new(cap: usize) -> (r: EvidenceRing)
        ensures
            r.events() == Seq::<EvidenceView>::empty(),
            r.capacity() == cap,
    {
        let r = EvidenceRing { entries: Vec::new(), cap };
        assert(r.events() =~= Seq::<EvidenceView>::empty());
        r
    }

    /// Records an event at `at_ms`, dropping the oldest when the ring is full.
    pub fn record(&mut self, kind: &str, subject: &str, detail: String, at_ms: u128)
        ensures
            final(self).capacity() == old(self).capacity(),
            final(self).events() == after_record(
                old(self).events(),
                old(self).capacity(),
                EvidenceView { at_ms, kind: kind@, subject: subject@, detail: detail@ },
            ),
    {
        let ghost before = self.events();
        if self.entries.len() == self.cap && self.cap > 0 {
            self.entries.remove(0);
            assert(self.events() =~= before.drop_first());
        }
        let ghost mid = self.events();
        let e = Evidence { at_ms, kind: kind.to_owned(), subject: subject.to_owned(), detail };
        self.entries.push(e);
        assert(self.events() =~= mid.push(e@));
    }

    /// A copy of the events, oldest first.
    pub fn snapshot(&self) -> (out: Vec<Evidence>)
        ensures
            Seq::new(out@.len(), |i: int| out@[i]@) == self.events(),
    {
        let mut out: Vec<Evidence> = Vec::new();
        let mut i: usize = 0;
        while i < self.entries.len()
            invariant
                i <= self.entries@.len(),
                Seq::new(out@.len(), |k: int| out@[k]@) == self.events().subrange(0, i as int),
            decreases self.entries.len() - i,
        {
            let ghost prev = Seq::new(out@.len(), |k: int| out@[k]@);
            let e = self.entries[i].duplicate();
            assert(self.events()[i as int] == self.entries@[i as int]@);
            out.push(e);
            assert(Seq::new(out@.len(), |k: int| out@[k]@) =~= prev.push(e@));
            assert(Seq::new(out@.len(), |k: int| out@[k]@) =~= self.events().subrange(0, i + 1));
            i = i + 1;
        }
        assert(self.events().subrange(0, self.entries@.len() as int) =~= self.events());
        out
    }
}

/// A ring with room for at least one event never holds more than its capacity, and when it is
/// full it keeps only the newest events: recording drops exactly the oldest.
pub proof fn law_ring_keeps_the_newest(s: Seq<EvidenceView>, cap: nat, e: EvidenceView)
    requires
        cap >= 1,
        s.len() <= cap,
    ensures
        after_record(s, cap, e).len() <= cap,
        after_record(s, cap, e).last() == e,
        s.len() == cap ==> after_record(s, cap, e) == s.subrange(1, s.len() as int).push(e),
        s.len() < cap ==> after_record(s, cap, e) == s.push(e),
{
}

} // verus!
