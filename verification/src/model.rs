//! The mathematical model of the viewer's state: the container list, the
//! per-name line buffers, the merged buffer, the focus and the info overlay,
//! with every operation as a function from state to state.

use vstd::prelude::*;
use crate::text::name_le;

verus! {

/// One log line.
pub type Line = Seq<char>;

/// The line buffers, by container name.
pub type Buffers = Map<Seq<char>, Seq<Line>>;

/// One row of the container list.
pub struct Entry {
    pub id: Seq<char>,
    pub name: Seq<char>,
    pub selected: bool,
    pub color_index: nat,
}

/// Where the focus is: on the "ALL" row, or on a row of the container list.
pub enum Cursor {
    All,
    Row(nat),
}

/// The whole state.
pub struct Model {
    pub containers: Seq<Entry>,
    pub focus: Cursor,
    pub logs: Seq<Line>,
    pub max_logs: nat,
    pub buffers: Buffers,
    pub color_counter: nat,
    pub show_info: bool,
    pub info_text: Seq<char>,
}

/// `s` with `x` at its end, less its first item if that makes more than `cap`.
pub open spec fn push_bounded<A>(s: Seq<A>, x: A, cap: nat) -> Seq<A> {
    let t = s.push(x);
    if t.len() > cap {
        t.drop_first()
    } else {
        t
    }
}

/// The last `n` items of `s`, or all of `s` if it has no more than `n`.
pub open spec fn tail<A>(s: Seq<A>, n: nat) -> Seq<A> {
    if s.len() > n {
        s.skip(s.len() - n)
    } else {
        s
    }
}

/// Whether some row has the id `id`.
pub open spec fn has_id(cs: Seq<Entry>, id: Seq<char>) -> bool {
    exists|i: int| 0 <= i < cs.len() && (#[trigger] cs[i]).id == id
}

/// The row that has the id `id`, where there is one.
pub open spec fn index_of_id(cs: Seq<Entry>, id: Seq<char>) -> int {
    choose|i: int| 0 <= i < cs.len() && (#[trigger] cs[i]).id == id
}

/// Whether some row has the name `name`.
pub open spec fn has_name(cs: Seq<Entry>, name: Seq<char>) -> bool {
    exists|i: int| 0 <= i < cs.len() && (#[trigger] cs[i]).name == name
}

/// Whether some selected row has the name `name`.
pub open spec fn name_selected(cs: Seq<Entry>, name: Seq<char>) -> bool {
    exists|i: int| 0 <= i < cs.len() && (#[trigger] cs[i]).name == name && cs[i].selected
}

/// Whether every row is selected.
pub open spec fn all_selected(cs: Seq<Entry>) -> bool {
    forall|i: int| 0 <= i < cs.len() ==> (#[trigger] cs[i]).selected
}

/// The number of selected rows.
pub open spec fn selected_count(cs: Seq<Entry>) -> nat
    decreases cs.len(),
{
    if cs.len() == 0 {
        0
    } else {
        selected_count(cs.drop_last()) + if cs.last().selected {
            1nat
        } else {
            0nat
        }
    }
}

/// The row `e` with its mark set to `selected`.
pub open spec fn marked(e: Entry, selected: bool) -> Entry {
    Entry { id: e.id, name: e.name, selected, color_index: e.color_index }
}

/// The list with every row's mark set to `selected`.
pub open spec fn with_all(cs: Seq<Entry>, selected: bool) -> Seq<Entry> {
    Seq::new(cs.len(), |i: int| marked(cs[i], selected))
}

/// The list with every row named `name` selected and the others as they were.
pub open spec fn with_name_selected(cs: Seq<Entry>, name: Seq<char>) -> Seq<Entry> {
    Seq::new(
        cs.len(),
        |i: int|
            if cs[i].name == name {
                marked(cs[i], true)
            } else {
                cs[i]
            },
    )
}

/// The list with the mark of row `i` turned over.
pub open spec fn flipped(cs: Seq<Entry>, i: int) -> Seq<Entry> {
    cs.update(i, marked(cs[i], !cs[i].selected))
}

/// Where a new row named `name` goes: behind every row whose name is at most
/// `name`, so that rows of equal name keep the order in which they came.
pub open spec fn slot_for(cs: Seq<Entry>, name: Seq<char>) -> nat
    decreases cs.len(),
{
    if cs.len() == 0 || !name_le(cs[0].name, name) {
        0
    } else {
        1 + slot_for(cs.drop_first(), name)
    }
}

/// What row `e` gives to the merged buffer: the buffer of its name if it is
/// selected and has one, nothing otherwise.
pub open spec fn share(e: Entry, buffers: Buffers) -> Seq<Line> {
    if e.selected && buffers.dom().contains(e.name) {
        buffers[e.name]
    } else {
        Seq::empty()
    }
}

/// The shares of all rows, one after the other in list order.
pub open spec fn gathered(cs: Seq<Entry>, buffers: Buffers) -> Seq<Line>
    decreases cs.len(),
{
    if cs.len() == 0 {
        Seq::empty()
    } else {
        gathered(cs.drop_last(), buffers) + share(cs.last(), buffers)
    }
}

/// The list is in the order of its names.
pub open spec fn sorted_by_name(cs: Seq<Entry>) -> bool {
    forall|i: int, j: int|
        #![trigger cs[i], cs[j]]
        0 <= i < j < cs.len() ==> name_le(cs[i].name, cs[j].name)
}

/// No two rows have the same id.
pub open spec fn distinct_ids(cs: Seq<Entry>) -> bool {
    forall|i: int, j: int| #![trigger cs[i], cs[j]] 0 <= i < j < cs.len() ==> cs[i].id != cs[j].id
}

/// Every row's color index was handed out by a counter that now stands at
/// `counter`, and no two rows share one.
pub open spec fn colors_assigned(cs: Seq<Entry>, counter: nat) -> bool {
    &&& forall|i: int| 0 <= i < cs.len() ==> (#[trigger] cs[i]).color_index < counter
    &&& forall|i: int, j: int|
        #![trigger cs[i], cs[j]]
        0 <= i < j < cs.len() ==> cs[i].color_index != cs[j].color_index
}

/// No buffer holds more than `cap` lines.
pub open spec fn buffers_bounded(buffers: Buffers, cap: nat) -> bool {
    forall|name: Seq<char>| buffers.dom().contains(name) ==> (#[trigger] buffers[name]).len() <= cap
}

/// The focus `focus` brought back into a list of `len` rows.
pub open spec fn clamped(focus: Cursor, len: nat) -> Cursor {
    match focus {
        Cursor::All => Cursor::All,
        Cursor::Row(i) => if len == 0 {
            Cursor::All
        } else if i >= len {
            Cursor::Row((len - 1) as nat)
        } else {
            Cursor::Row(i)
        },
    }
}

impl Model {
    /// The invariant of the state.
    pub open spec fn wf(self) -> bool {
        &&& sorted_by_name(self.containers)
        &&& distinct_ids(self.containers)
        &&& colors_assigned(self.containers, self.color_counter)
        &&& (self.focus matches Cursor::Row(i) ==> i < self.containers.len())
        &&& self.logs.len() <= self.max_logs
        &&& buffers_bounded(self.buffers, self.max_logs)
    }

    /// The state of a new session that keeps `max_logs` lines per buffer.
    pub open spec fn init(max_logs: nat) -> Model {
        Model {
            containers: Seq::empty(),
            focus: Cursor::All,
            logs: Seq::empty(),
            max_logs,
            buffers: Map::empty(),
            color_counter: 0,
            show_info: false,
            info_text: Seq::empty(),
        }
    }

    /// What the merged buffer is rebuilt to: the shares of the selected rows
    /// in list order, cut to the last `max_logs` lines.
    pub open spec fn rebuilt_logs(self) -> Seq<Line> {
        tail(gathered(self.containers, self.buffers), self.max_logs)
    }

    /// The state with its merged buffer rebuilt.
    pub open spec fn rebuilt(self) -> Model {
        Model { logs: self.rebuilt_logs(), ..self }
    }

    /// The state with `cs` as its list.
    pub open spec fn with_containers(self, cs: Seq<Entry>) -> Model {
        Model { containers: cs, ..self }
    }

    /// The focus moves one row down: from "ALL" to the first row, from the
    /// last row to "ALL". With no rows it stays on "ALL".
    pub open spec fn next(self) -> Model {
        let focus = match self.focus {
            Cursor::All => if self.containers.len() == 0 {
                Cursor::All
            } else {
                Cursor::Row(0)
            },
            Cursor::Row(i) => if i + 1 >= self.containers.len() {
                Cursor::All
            } else {
                Cursor::Row(i + 1)
            },
        };
        Model { focus, ..self }
    }

    /// The focus moves one row up: from "ALL" to the last row, from the first
    /// row to "ALL". With no rows it stays on "ALL".
    pub open spec fn previous(self) -> Model {
        let focus = match self.focus {
            Cursor::All => if self.containers.len() == 0 {
                Cursor::All
            } else {
                Cursor::Row((self.containers.len() - 1) as nat)
            },
            Cursor::Row(i) => if i == 0 {
                Cursor::All
            } else {
                Cursor::Row((i - 1) as nat)
            },
        };
        Model { focus, ..self }
    }

    /// Every row is selected and the merged buffer rebuilt.
    pub open spec fn select_all(self) -> Model {
        Model { containers: with_all(self.containers, true), ..self }.rebuilt()
    }

    /// No row is selected and the merged buffer rebuilt.
    pub open spec fn deselect_all(self) -> Model {
        Model { containers: with_all(self.containers, false), ..self }.rebuilt()
    }

    /// On "ALL": deselects all rows if all are selected, selects all
    /// otherwise. On a row: turns its mark over and rebuilds the merged buffer.
    pub open spec fn toggle_selected(self) -> Model {
        match self.focus {
            Cursor::All => if all_selected(self.containers) {
                self.deselect_all()
            } else {
                self.select_all()
            },
            Cursor::Row(i) => if i < self.containers.len() {
                Model { containers: flipped(self.containers, i as int), ..self }.rebuilt()
            } else {
                self
            },
        }
    }

    /// The buffer named `name`, empty if there is none.
    pub open spec fn buffer_of(self, name: Seq<char>) -> Seq<Line> {
        if self.buffers.dom().contains(name) {
            self.buffers[name]
        } else {
            Seq::empty()
        }
    }

    /// `line` goes to the end of the buffer named `name`, and to the end of
    /// the merged buffer if a selected row has that name; each of the two
    /// loses its oldest line if it then holds more than `max_logs`.
    pub open spec fn add_log(self, name: Seq<char>, line: Line) -> Model {
        Model {
            buffers: self.buffers.insert(
                name,
                push_bounded(self.buffer_of(name), line, self.max_logs),
            ),
            logs: if name_selected(self.containers, name) {
                push_bounded(self.logs, line, self.max_logs)
            } else {
                self.logs
            },
            ..self
        }
    }

    /// A row for `id` comes into the list, selected and with the next color
    /// index, unless the list has that id already. The first row to come takes
    /// the focus. The merged buffer is rebuilt.
    pub open spec fn add_container(self, id: Seq<char>, name: Seq<char>) -> Model {
        if has_id(self.containers, id) {
            self
        } else {
            let entry = Entry { id, name, selected: true, color_index: self.color_counter };
            Model {
                containers: self.containers.insert(slot_for(self.containers, name) as int, entry),
                color_counter: self.color_counter + 1,
                focus: if self.containers.len() == 0 {
                    Cursor::Row(0)
                } else {
                    self.focus
                },
                ..self
            }.rebuilt()
        }
    }

    /// The row of `id` leaves the list with the buffer of its name. If rows of
    /// the same name remain they become selected, otherwise all rows do. The
    /// focus is brought back into the list. The merged buffer is rebuilt, also
    /// where the list does not have the id.
    pub open spec fn remove_container(self, id: Seq<char>) -> Model {
        if !has_id(self.containers, id) {
            self.rebuilt()
        } else {
            let k = index_of_id(self.containers, id);
            let name = self.containers[k].name;
            let rest = self.containers.remove(k);
            Model {
                containers: if has_name(rest, name) {
                    with_name_selected(rest, name)
                } else {
                    with_all(rest, true)
                },
                buffers: self.buffers.remove(name),
                focus: clamped(self.focus, rest.len()),
                ..self
            }.rebuilt()
        }
    }

    /// The info overlay opens on `text`.
    pub open spec fn open_info(self, text: Seq<char>) -> Model {
        Model { info_text: text, show_info: true, ..self }
    }

    /// The info overlay closes; its text stays.
    pub open spec fn close_info(self) -> Model {
        Model { show_info: false, ..self }
    }
}

/// `slot_for` is the first row whose name is greater than `name`.
pub proof fn lemma_slot_for(cs: Seq<Entry>, name: Seq<char>)
    ensures
        slot_for(cs, name) <= cs.len(),
        forall|k: int| 0 <= k < slot_for(cs, name) ==> name_le((#[trigger] cs[k]).name, name),
        slot_for(cs, name) < cs.len() ==> !name_le(cs[slot_for(cs, name) as int].name, name),
    decreases cs.len(),
{
    if cs.len() == 0 || !name_le(cs[0].name, name) {
    } else {
        let rest = cs.drop_first();
        lemma_slot_for(rest, name);
        let p = slot_for(cs, name);
        assert forall|k: int| 0 <= k < p implies name_le((#[trigger] cs[k]).name, name) by {
            if k > 0 {
                assert(cs[k] == rest[k - 1]);
            }
        }
        if p < cs.len() {
            assert(cs[p as int] == rest[p - 1]);
        }
    }
}

/// The first row whose name is greater than `name` is `slot_for`.
pub proof fn lemma_slot_for_is(cs: Seq<Entry>, name: Seq<char>, p: int)
    requires
        0 <= p <= cs.len(),
        forall|k: int| 0 <= k < p ==> name_le((#[trigger] cs[k]).name, name),
        p < cs.len() ==> !name_le(cs[p].name, name),
    ensures
        slot_for(cs, name) == p,
    decreases cs.len(),
{
    if cs.len() == 0 || !name_le(cs[0].name, name) {
        if p > 0 {
            assert(name_le(cs[0].name, name));
        }
    } else {
        let rest = cs.drop_first();
        assert forall|k: int| 0 <= k < p - 1 implies name_le((#[trigger] rest[k]).name, name) by {
            assert(rest[k] == cs[k + 1]);
        }
        if p - 1 < rest.len() {
            assert(rest[p - 1] == cs[p]);
        }
        lemma_slot_for_is(rest, name, p - 1);
    }
}

/// A sorted list stays sorted when a row goes in at its slot.
pub proof fn lemma_insert_keeps_sorted(cs: Seq<Entry>, e: Entry)
    requires
        sorted_by_name(cs),
    ensures
        sorted_by_name(cs.insert(slot_for(cs, e.name) as int, e)),
{
    lemma_slot_for(cs, e.name);
    let p = slot_for(cs, e.name) as int;
    let out = cs.insert(p, e);
    assert forall|i: int, j: int| 0 <= i < j < out.len() implies name_le(
        out[i].name,
        out[j].name,
    ) by {
        if j < p {
            assert(out[i] == cs[i] && out[j] == cs[j]);
        } else if j == p {
            assert(out[i] == cs[i]);
        } else if i < p {
            assert(out[i] == cs[i] && out[j] == cs[j - 1]);
        } else if i == p {
            assert(out[j] == cs[j - 1]);
            crate::text::lemma_name_le_total(cs[p].name, e.name);
            if j - 1 > p {
                assert(name_le(cs[p].name, cs[j - 1].name));
                crate::text::lemma_name_le_transitive(e.name, cs[p].name, cs[j - 1].name);
            }
        } else {
            assert(out[i] == cs[i - 1] && out[j] == cs[j - 1]);
        }
    }
}

/// The rows keep their ids when marks change.
pub proof fn lemma_marks_keep_wf(m: Model, cs: Seq<Entry>)
    requires
        m.wf(),
        cs.len() == m.containers.len(),
        forall|i: int|
            0 <= i < cs.len() ==> (#[trigger] cs[i]).id == m.containers[i].id && cs[i].name
                == m.containers[i].name && cs[i].color_index == m.containers[i].color_index,
    ensures
        m.with_containers(cs).rebuilt().wf(),
{
    assert forall|i: int, j: int| 0 <= i < j < cs.len() implies name_le(
        cs[i].name,
        cs[j].name,
    ) by {
        assert(name_le(m.containers[i].name, m.containers[j].name));
    }
    assert forall|i: int, j: int| 0 <= i < j < cs.len() implies cs[i].id != cs[j].id by {
        assert(m.containers[i].id != m.containers[j].id);
    }
    assert forall|i: int, j: int| 0 <= i < j < cs.len() implies cs[i].color_index
        != cs[j].color_index by {
        assert(m.containers[i].color_index != m.containers[j].color_index);
    }
    assert forall|i: int| 0 <= i < cs.len() implies (#[trigger] cs[i]).color_index
        < m.color_counter by {
        assert(m.containers[i].color_index < m.color_counter);
    }
}

impl Model {
    /// A new session starts in a state that meets the invariant.
    pub proof fn lemma_init_wf(max_logs: nat)
        ensures
            Model::init(max_logs).wf(),
    {
    }

    /// `next` keeps the invariant.
    pub proof fn lemma_next_wf(self)
        requires
            self.wf(),
        ensures
            self.next().wf(),
    {
    }

    /// `previous` keeps the invariant.
    pub proof fn lemma_previous_wf(self)
        requires
            self.wf(),
        ensures
            self.previous().wf(),
    {
    }

    /// `select_all` keeps the invariant.
    pub proof fn lemma_select_all_wf(self)
        requires
            self.wf(),
        ensures
            self.select_all().wf(),
    {
        lemma_marks_keep_wf(self, with_all(self.containers, true));
    }

    /// `deselect_all` keeps the invariant.
    pub proof fn lemma_deselect_all_wf(self)
        requires
            self.wf(),
        ensures
            self.deselect_all().wf(),
    {
        lemma_marks_keep_wf(self, with_all(self.containers, false));
    }

    /// `toggle_selected` keeps the invariant.
    pub proof fn lemma_toggle_selected_wf(self)
        requires
            self.wf(),
        ensures
            self.toggle_selected().wf(),
    {
        match self.focus {
            Cursor::All => {
                self.lemma_select_all_wf();
                self.lemma_deselect_all_wf();
            },
            Cursor::Row(i) => {
                lemma_marks_keep_wf(self, flipped(self.containers, i as int));
            },
        }
    }

    /// `add_log` keeps the invariant.
    pub proof fn lemma_add_log_wf(self, name: Seq<char>, line: Line)
        requires
            self.wf(),
        ensures
            self.add_log(name, line).wf(),
    {
        let after = self.add_log(name, line);
        assert forall|k: Seq<char>| after.buffers.dom().contains(k) implies (
        #[trigger] after.buffers[k]).len() <= after.max_logs by {
            if k != name {
                assert(self.buffers.dom().contains(k));
                assert(after.buffers[k] == self.buffers[k]);
            }
        }
    }

    /// `add_container` keeps the invariant.
    pub proof fn lemma_add_container_wf(self, id: Seq<char>, name: Seq<char>)
        requires
            self.wf(),
        ensures
            self.add_container(id, name).wf(),
    {
        if !has_id(self.containers, id) {
            let cs = self.containers;
            let entry = Entry { id, name, selected: true, color_index: self.color_counter };
            let p = slot_for(cs, name) as int;
            lemma_slot_for(cs, name);
            lemma_insert_keeps_sorted(cs, entry);
            let out = cs.insert(p, entry);
            assert forall|i: int, j: int| 0 <= i < j < out.len() implies out[i].id
                != out[j].id && out[i].color_index != out[j].color_index by {
                let a = if i < p {
                    i
                } else {
                    i - 1
                };
                let b = if j < p {
                    j
                } else {
                    j - 1
                };
                if i == p {
                    assert(out[j] == cs[b]);
                } else if j == p {
                    assert(out[i] == cs[a]);
                } else {
                    assert(out[i] == cs[a] && out[j] == cs[b]);
                }
            }
            assert forall|i: int| 0 <= i < out.len() implies (#[trigger] out[i]).color_index
                < self.color_counter + 1 by {
                if i < p {
                    assert(out[i] == cs[i]);
                } else if i > p {
                    assert(out[i] == cs[i - 1]);
                }
            }
        }
    }

    /// `remove_container` keeps the invariant.
    pub proof fn lemma_remove_container_wf(self, id: Seq<char>)
        requires
            self.wf(),
        ensures
            self.remove_container(id).wf(),
    {
        if has_id(self.containers, id) {
            let cs = self.containers;
            let k = index_of_id(cs, id);
            let name = cs[k].name;
            let rest = cs.remove(k);
            let mid = Model {
                containers: rest,
                buffers: self.buffers.remove(name),
                focus: clamped(self.focus, rest.len()),
                ..self
            };
            assert forall|i: int, j: int| 0 <= i < j < rest.len() implies name_le(
                rest[i].name,
                rest[j].name,
            ) && rest[i].id != rest[j].id && rest[i].color_index != rest[j].color_index by {
                let a = if i < k {
                    i
                } else {
                    i + 1
                };
                let b = if j < k {
                    j
                } else {
                    j + 1
                };
                assert(rest[i] == cs[a] && rest[j] == cs[b]);
            }
            assert forall|i: int| 0 <= i < rest.len() implies (#[trigger] rest[i]).color_index
                < self.color_counter by {
                let a = if i < k {
                    i
                } else {
                    i + 1
                };
                assert(rest[i] == cs[a]);
            }
            assert forall|n: Seq<char>| mid.buffers.dom().contains(n) implies (
            #[trigger] mid.buffers[n]).len() <= mid.max_logs by {
                assert(self.buffers.dom().contains(n));
            }
            assert(mid.wf());
            if has_name(rest, name) {
                lemma_marks_keep_wf(mid, with_name_selected(rest, name));
            } else {
                lemma_marks_keep_wf(mid, with_all(rest, true));
            }
        }
    }
}

} // verus!
