//! The set of container ids that have a log source, which keeps a container
//! from being attached twice, and the counter that hands each new source its
//! color index.

use vstd::prelude::*;

verus! {

/// What a `WatchList` stands for.
pub struct Watched {
    pub ids: Set<Seq<char>>,
    pub next_color: nat,
}

/// The ids that have a log source, and the next color index.
pub struct WatchList {
    ids: Vec<String>,
    next_color: usize,
}

/// The set of the texts of `ids`.
pub open spec fn id_set(ids: Seq<String>) -> Set<Seq<char>> {
    Set::new(|id: Seq<char>| exists|i: int| 0 <= i < ids.len() && (#[trigger] ids[i])@ == id)
}

spec fn no_duplicates(ids: Seq<String>) -> bool {
    forall|i: int, j: int| #![trigger ids[i], ids[j]] 0 <= i < j < ids.len() ==> ids[i]@ != ids[j]@
}

impl Watched {
    /// The state after `id` has asked for a log source: a new id comes into
    /// the set and takes the next color index.
    pub open spec fn claim(self, id: Seq<char>) -> Watched {
        if self.ids.contains(id) {
            self
        } else {
            Watched { ids: self.ids.insert(id), next_color: self.next_color + 1 }
        }
    }

    /// The state after the log source of `id` has ended.
    pub open spec fn release(self, id: Seq<char>) -> Watched {
        Watched { ids: self.ids.remove(id), next_color: self.next_color }
    }
}

/// Of two ids that get a log source one after the other, the second gets the
/// greater color index.
pub proof fn law_claims_increase(w: Watched, first: Seq<char>, second: Seq<char>)
    requires
        !w.ids.contains(first),
        !w.claim(first).ids.contains(second),
    ensures
        w.claim(first).next_color == w.next_color + 1,
        w.claim(first).claim(second).next_color == w.next_color + 2,
        w.next_color < w.claim(first).next_color,
{
}

/// An id that has a log source gets no second one.
pub proof fn law_claim_idempotent(w: Watched, id: Seq<char>)
    ensures
        w.claim(id).claim(id) == w.claim(id),
{
}

/// A new id is in the set as soon as it has asked for a log source, and is
/// out of it as soon as that source has ended. The end of a log source leaves
/// the counter where it was, so that no color index is handed out again.
pub proof fn law_one_source_per_id(w: Watched, id: Seq<char>)
    ensures
        w.claim(id).ids.contains(id),
        !w.release(id).ids.contains(id),
        w.release(id).next_color == w.next_color,
        w.release(id).claim(id).next_color == w.next_color + 1,
{
}

/// A request for a log source, or the end of one.
pub enum WatchOp {
    Claim { id: Seq<char> },
    Release { id: Seq<char> },
}

impl Watched {
    /// The state in which no id has a log source yet.
    pub open spec fn init() -> Watched {
        Watched { ids: Set::empty(), next_color: 0 }
    }

    /// The state after `op`.
    pub open spec fn apply(self, op: WatchOp) -> Watched {
        match op {
            WatchOp::Claim { id } => self.claim(id),
            WatchOp::Release { id } => self.release(id),
        }
    }

    /// The state after the operations `ops`, in their order.
    pub open spec fn run(self, ops: Seq<WatchOp>) -> Watched
        decreases ops.len(),
    {
        if ops.len() == 0 {
            self
        } else {
            self.run(ops.drop_last()).apply(ops.last())
        }
    }

    /// The color indices that the operations `ops` hand out, in their order:
    /// one for each request of an id that has no log source then.
    pub open spec fn handed_out(self, ops: Seq<WatchOp>) -> Seq<nat>
        decreases ops.len(),
    {
        if ops.len() == 0 {
            Seq::empty()
        } else {
            let before = self.run(ops.drop_last());
            let earlier = self.handed_out(ops.drop_last());
            match ops.last() {
                WatchOp::Claim { id } => if before.ids.contains(id) {
                    earlier
                } else {
                    earlier.push(before.next_color)
                },
                WatchOp::Release { id } => earlier,
            }
        }
    }
}

/// Whatever ids ask for a log source and whatever sources end, the color
/// indices handed out are 0, 1, 2 and so on in the order of the requests: no
/// two are equal, and the counter is their number.
pub proof fn law_color_indices_count_up(ops: Seq<WatchOp>)
    ensures
        Watched::init().handed_out(ops).len() == Watched::init().run(ops).next_color,
        forall|i: int|
            0 <= i < Watched::init().handed_out(ops).len() ==> Watched::init().handed_out(ops)[i]
                == i,
    decreases ops.len(),
{
    if ops.len() > 0 {
        law_color_indices_count_up(ops.drop_last());
    }
}

impl View for WatchList {
    type V = Watched;

    closed spec fn view(&self) -> Watched {
        Watched { ids: id_set(self.ids@), next_color: self.next_color as nat }
    }
}

impl WatchList {
    /// The invariant: no id is held twice.
    pub closed spec fn wf(&self) -> bool {
        no_duplicates(self.ids@)
    }

    /// A list without ids whose first color index is 0.
    pub fn new() -> (list: WatchList)
        ensures
            list.wf(),
            list@ == Watched::init(),
    {
        let list = WatchList { ids: Vec::new(), next_color: 0 };
        assert(list@.ids =~= Set::<Seq<char>>::empty());
        list
    }

    /// The color index that the next new id gets.
    pub fn next_color(&self) -> (n: usize)
        ensures
            n == self@.next_color,
    {
        self.next_color
    }

    fn position(&self, id: &String) -> (found: Option<usize>)
        ensures
            match found {
                Some(k) => k < self.ids@.len() && self.ids@[k as int]@ == id@,
                None => !self@.ids.contains(id@),
            },
    {
        let mut i: usize = 0;
        while i < self.ids.len()
            invariant
                i <= self.ids@.len(),
                forall|k: int| 0 <= k < i ==> (#[trigger] self.ids@[k])@ != id@,
            decreases self.ids@.len() - i,
        {
            if self.ids[i] == *id {
                return Some(i);
            }
            i += 1;
        }
        None
    }

    /// Whether `id` has a log source.
    pub fn contains(&self, id: &str) -> (r: bool)
        ensures
            r == self@.ids.contains(id@),
    {
        let key = id.to_owned();
        match self.position(&key) {
            Some(k) => {
                assert(self.ids@[k as int]@ == id@);
                true
            },
            None => false,
        }
    }

    /// Asks for a log source for `id`. An id that has one gets `None` and
    /// nothing changes; a new id comes into the set and gets its color index.
    pub fn claim(&mut self, id: &str) -> (color_index: Option<usize>)
        requires
            old(self).wf(),
            old(self)@.next_color < usize::MAX || old(self)@.ids.contains(id@),
        ensures
            final(self).wf(),
            final(self)@ == old(self)@.claim(id@),
            color_index == if old(self)@.ids.contains(id@) {
                None
            } else {
                Some(old(self)@.next_color as usize)
            },
    {
        let key = id.to_owned();
        match self.position(&key) {
            Some(k) => {
                assert(self.ids@[k as int]@ == id@);
                None
            },
            None => {
                let color_index = self.next_color;
                let ghost before = self.ids@;
                self.ids.push(key);
                self.next_color = self.next_color + 1;
                proof {
                    assert forall|i: int, j: int| 0 <= i < j < self.ids@.len() implies self.ids@[i]@
                        != self.ids@[j]@ by {
                        if j < before.len() {
                            assert(before[i]@ != before[j]@);
                        } else {
                            assert(self.ids@[i] == before[i]);
                        }
                    }
                    assert forall|t: Seq<char>| id_set(self.ids@).contains(t) <==> id_set(
                        before,
                    ).insert(id@).contains(t) by {
                        if id_set(self.ids@).contains(t) {
                            let i = choose|i: int|
                                0 <= i < self.ids@.len() && (#[trigger] self.ids@[i])@ == t;
                            if i < before.len() {
                                assert(before[i]@ == t);
                            }
                        }
                        if id_set(before).contains(t) {
                            let i = choose|i: int| 0 <= i < before.len() && (#[trigger] before[i])@ == t;
                            assert(self.ids@[i]@ == t);
                        }
                        assert(self.ids@[before.len() as int]@ == id@);
                    }
                    assert(id_set(self.ids@) =~= id_set(before).insert(id@));
                }
                Some(color_index)
            },
        }
    }

    /// Ends the log source of `id`: the id leaves the set.
    pub fn release(&mut self, id: &str)
        requires
            old(self).wf(),
        ensures
            final(self).wf(),
            final(self)@ == old(self)@.release(id@),
    {
        let key = id.to_owned();
        let ghost before = self.ids@;
        match self.position(&key) {
            Some(k) => {
                let _ = self.ids.remove(k);
                proof {
                    let after = self.ids@;
                    assert forall|i: int, j: int| 0 <= i < j < after.len() implies after[i]@
                        != after[j]@ by {
                        let x = if i < k {
                            i
                        } else {
                            i + 1
                        };
                        let y = if j < k {
                            j
                        } else {
                            j + 1
                        };
                        assert(after[i] == before[x] && after[j] == before[y]);
                        assert(before[x]@ != before[y]@);
                    }
                    assert forall|t: Seq<char>| id_set(after).contains(t) <==> id_set(before).remove(
                        id@,
                    ).contains(t) by {
                        if id_set(after).contains(t) {
                            let i = choose|i: int| 0 <= i < after.len() && (#[trigger] after[i])@ == t;
                            let x = if i < k {
                                i
                            } else {
                                i + 1
                            };
                            assert(after[i] == before[x]);
                            assert(before[x]@ == t);
                            if x < k {
                                assert(before[x]@ != before[k as int]@);
                            } else {
                                assert(before[k as int]@ != before[x]@);
                            }
                        }
                        if id_set(before).contains(t) && t != id@ {
                            let x = choose|x: int| 0 <= x < before.len() && (#[trigger] before[x])@ == t;
                            let i = if x < k {
                                x
                            } else {
                                x - 1
                            };
                            assert(after[i] == before[x]);
                        }
                    }
                    assert(id_set(after) =~= id_set(before).remove(id@));
                }
            },
            None => {
                assert(id_set(before) =~= id_set(before).remove(id@));
            },
        }
    }
}

} // verus!
