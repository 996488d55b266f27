use vstd::prelude::*;

verus! {

/// The last cumulative byte counters seen for one interface.
pub struct RateEntry {
    pub name: String,
    pub received: u64,
    pub transmitted: u64,
}

/// The last cumulative (received, transmitted) byte counters seen for each
/// interface, kept from one poll to the next.
pub struct RateTable {
    entries: Vec<RateEntry>,
}

pub open spec fn has_name(s: Seq<RateEntry>, k: Seq<char>) -> bool {
    exists|i: int| 0 <= i < s.len() && (#[trigger] s[i]).name@ == k
}

pub open spec fn entries_map(s: Seq<RateEntry>) -> Map<Seq<char>, (u64, u64)> {
    Map::new(
        |k: Seq<char>| has_name(s, k),
        |k: Seq<char>|
            {
                let i = choose|i: int| 0 <= i < s.len() && (#[trigger] s[i]).name@ == k;
                (s[i].received, s[i].transmitted)
            },
    )
}

/// The counters stored for `name`, or zero for a name not seen yet.
pub open spec fn previous(m: Map<Seq<char>, (u64, u64)>, name: Seq<char>) -> (u64, u64) {
    if m.contains_key(name) {
        m[name]
    } else {
        (0, 0)
    }
}

/// `a - b`, or zero where `b` is larger.
pub open spec fn delta(a: u64, b: u64) -> u64 {
    if a >= b {
        (a - b) as u64
    } else {
        0
    }
}

/// The rates one sample gives: the growth of each counter since the stored one.
pub open spec fn rates(m: Map<Seq<char>, (u64, u64)>, name: Seq<char>, rx: u64, tx: u64) -> (
    u64,
    u64,
) {
    (delta(rx, previous(m, name).0), delta(tx, previous(m, name).1))
}

impl View for RateTable {
    type V = Map<Seq<char>, (u64, u64)>;

    closed spec fn view(&self) -> Map<Seq<char>, (u64, u64)> {
        entries_map(self.entries@)
    }
}

impl RateTable {
    /// No two entries share a name.
    pub closed spec fn wf(&self) -> bool {
        forall|i: int, j: int|
            0 <= i < self.entries@.len() && 0 <= j < self.entries@.len() && i != j
                ==> (#[trigger] self.entries@[i]).name@ != (#[trigger] self.entries@[j]).name@
    }

    pub fn new() -> (r: RateTable)
        ensures
            r.wf(),
            r@ == Map::<Seq<char>, (u64, u64)>::empty(),
    {
        let r = RateTable { entries: Vec::new() };
        assert(r@ =~= Map::<Seq<char>, (u64, u64)>::empty());
        r
    }

    fn find(&self, name: &String) -> (r: Option<usize>)
        requires
            self.wf(),
        ensures
            match r {
                Some(i) => i < self.entries@.len() && self.entries@[i as int].name@ == name@,
                None => !has_name(self.entries@, name@),
            },
    {
        let mut i: usize = 0;
        while i < self.entries.len()
            invariant
                i <= self.entries@.len(),
                forall|j: int| 0 <= j < i ==> (#[trigger] self.entries@[j]).name@ != name@,
            decreases self.entries.len() - i,
        {
            if self.entries[i].name == *name {
                return Some(i);
            }
            i = i + 1;
        }
        None
    }

    /// The counters stored for `name`, if any.
    pub fn get(&self, name: &String) -> (r: Option<(u64, u64)>)
        requires
            self.wf(),
        ensures
            r == (if self@.contains_key(name@) {
                Some(self@[name@])
            } else {
                None::<(u64, u64)>
            }),
    {
        match self.find(name) {
            Some(i) => {
                let e = &self.entries[i];
                Some((e.received, e.transmitted))
            },
            None => None,
        }
    }

    /// Stores `(received, transmitted)` as the counters of `name`.
    pub fn record(&mut self, name: &String, received: u64, transmitted: u64)
        requires
            old(self).wf(),
        ensures
            final(self).wf(),
            final(self)@ == old(self)@.insert(name@, (received, transmitted)),
    {
        let ghost s0 = self.entries@;
        match self.find(name) {
            Some(i) => {
                let e = RateEntry { name: name.clone(), received, transmitted };
                self.entries.set(i, e);
                let ghost s1 = self.entries@;
                assert forall|k: Seq<char>| #[trigger] has_name(s1, k) == (has_name(s0, k) || k
                    == name@) by {
                    if has_name(s0, k) {
                        let j = choose|j: int| 0 <= j < s0.len() && (#[trigger] s0[j]).name@ == k;
                        if j == i {
                            assert(s1[j].name@ == k);
                        } else {
                            assert(s1[j] == s0[j]);
                        }
                    }
                    if k == name@ {
                        assert(s1[i as int].name@ == k);
                    }
                    if has_name(s1, k) {
                        let j = choose|j: int| 0 <= j < s1.len() && (#[trigger] s1[j]).name@ == k;
                        if j != i {
                            assert(s1[j] == s0[j]);
                        }
                    }
                }
                assert(entries_map(s1) =~= entries_map(s0).insert(name@, (received, transmitted)));
            },
            None => {
                let e = RateEntry { name: name.clone(), received, transmitted };
                self.entries.push(e);
                let ghost s1 = self.entries@;
                assert forall|k: Seq<char>| #[trigger] has_name(s1, k) == (has_name(s0, k) || k
                    == name@) by {
                    if has_name(s0, k) {
                        let j = choose|j: int| 0 <= j < s0.len() && (#[trigger] s0[j]).name@ == k;
                        assert(s1[j] == s0[j]);
                    }
                    if k == name@ {
                        assert(s1[s0.len() as int].name@ == k);
                    }
                    if has_name(s1, k) {
                        let j = choose|j: int| 0 <= j < s1.len() && (#[trigger] s1[j]).name@ == k;
                        if j < s0.len() {
                            assert(s1[j] == s0[j]);
                        }
                    }
                }
                assert(entries_map(s1) =~= entries_map(s0).insert(name@, (received, transmitted)));
            },
        }
    }

    /// One poll of one interface: the growth of each counter since the last poll
    /// (zero for a counter that went back, and counted from zero for a name not
    /// seen yet), after which the table holds the new counters.
    pub fn sample(&mut self, name: &String, received: u64, transmitted: u64) -> (r: (u64, u64))
        requires
            old(self).wf(),
        ensures
            final(self).wf(),
            final(self)@ == old(self)@.insert(name@, (received, transmitted)),
            r == rates(old(self)@, name@, received, transmitted),
    {
        let (last_received, last_transmitted): (u64, u64) = match self.get(name) {
            Some(p) => p,
            None => (0, 0),
        };
        let download: u64 = received.saturating_sub(last_received);
        let upload: u64 = transmitted.saturating_sub(last_transmitted);
        self.record(name, received, transmitted);
        (download, upload)
    }
}

/// Two samples of one interface in a row: the second gives the growth of each
/// counter over the first, and zero for a counter that went back (a reset),
/// never a negative or wrapped value.
pub proof fn lemma_consecutive_samples(
    m: Map<Seq<char>, (u64, u64)>,
    name: Seq<char>,
    rx1: u64,
    tx1: u64,
    rx2: u64,
    tx2: u64,
)
    ensures
        rates(m.insert(name, (rx1, tx1)), name, rx2, tx2) == (delta(rx2, rx1), delta(tx2, tx1)),
        rx2 <= rx1 ==> rates(m.insert(name, (rx1, tx1)), name, rx2, tx2).0 == 0,
        tx2 <= tx1 ==> rates(m.insert(name, (rx1, tx1)), name, rx2, tx2).1 == 0,
        rx1 <= rx2 ==> rates(m.insert(name, (rx1, tx1)), name, rx2, tx2).0 == rx2 - rx1,
        tx1 <= tx2 ==> rates(m.insert(name, (rx1, tx1)), name, rx2, tx2).1 == tx2 - tx1,
{
}

/// A name seen for the first time is counted from zero.
pub proof fn lemma_first_sample(m: Map<Seq<char>, (u64, u64)>, name: Seq<char>, rx: u64, tx: u64)
    requires
        !m.contains_key(name),
    ensures
        rates(m, name, rx, tx) == (rx, tx),
{
}

} // verus!
