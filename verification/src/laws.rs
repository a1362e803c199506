//! What holds of the state whatever the session does: bounds on the buffers,
//! the order of the list, the color indices, the focus cycle, and the
//! operations that undo or repeat themselves.

use vstd::prelude::*;
use crate::model::{
    colors_assigned, distinct_ids, flipped, gathered, has_id, index_of_id, lemma_slot_for,
    name_selected, slot_for, sorted_by_name, tail, with_all, Buffers, Cursor, Entry, Line, Model,
};

verus! {

/// One operation on the state.
pub enum Op {
    AddContainer { id: Seq<char>, name: Seq<char> },
    RemoveContainer { id: Seq<char> },
    AddLog { name: Seq<char>, line: Line },
    ToggleSelected,
    SelectAll,
    DeselectAll,
    Next,
    Previous,
    OpenInfo { text: Seq<char> },
    CloseInfo,
}

impl Model {
    /// The state after `op`.
    pub open spec fn apply(self, op: Op) -> Model {
        match op {
            Op::AddContainer { id, name } => self.add_container(id, name),
            Op::RemoveContainer { id } => self.remove_container(id),
            Op::AddLog { name, line } => self.add_log(name, line),
            Op::ToggleSelected => self.toggle_selected(),
            Op::SelectAll => self.select_all(),
            Op::DeselectAll => self.deselect_all(),
            Op::Next => self.next(),
            Op::Previous => self.previous(),
            Op::OpenInfo { text } => self.open_info(text),
            Op::CloseInfo => self.close_info(),
        }
    }

    /// The state after the operations `ops`, in their order.
    pub open spec fn run(self, ops: Seq<Op>) -> Model
        decreases ops.len(),
    {
        if ops.len() == 0 {
            self
        } else {
            self.run(ops.drop_last()).apply(ops.last())
        }
    }

    /// The state after `next` has been applied `k` times.
    pub open spec fn next_times(self, k: nat) -> Model
        decreases k,
    {
        if k == 0 {
            self
        } else {
            self.next_times((k - 1) as nat).next()
        }
    }

    /// The state with the focus at `focus`.
    pub open spec fn focused_at(self, focus: Cursor) -> Model {
        Model { focus, ..self }
    }
}

/// The buffers of all rows, selected or not, one after the other in list order.
pub open spec fn every_buffer(cs: Seq<Entry>, buffers: Buffers) -> Seq<Line>
    decreases cs.len(),
{
    if cs.len() == 0 {
        Seq::empty()
    } else {
        every_buffer(cs.drop_last(), buffers) + if buffers.dom().contains(cs.last().name) {
            buffers[cs.last().name]
        } else {
            Seq::empty()
        }
    }
}

/// Every operation keeps the invariant.
pub proof fn lemma_apply_wf(s: Model, op: Op)
    requires
        s.wf(),
    ensures
        s.apply(op).wf(),
{
    match op {
        Op::AddContainer { id, name } => s.lemma_add_container_wf(id, name),
        Op::RemoveContainer { id } => s.lemma_remove_container_wf(id),
        Op::AddLog { name, line } => s.lemma_add_log_wf(name, line),
        Op::ToggleSelected => s.lemma_toggle_selected_wf(),
        Op::SelectAll => s.lemma_select_all_wf(),
        Op::DeselectAll => s.lemma_deselect_all_wf(),
        Op::Next => s.lemma_next_wf(),
        Op::Previous => s.lemma_previous_wf(),
        Op::OpenInfo { text } => {},
        Op::CloseInfo => {},
    }
}

/// Every sequence of operations keeps the invariant.
pub proof fn lemma_run_wf(s: Model, ops: Seq<Op>)
    requires
        s.wf(),
    ensures
        s.run(ops).wf(),
    decreases ops.len(),
{
    if ops.len() > 0 {
        lemma_run_wf(s, ops.drop_last());
        lemma_apply_wf(s.run(ops.drop_last()), ops.last());
    }
}

/// No operation changes the number of lines that the buffers keep.
pub proof fn lemma_run_keeps_max_logs(s: Model, ops: Seq<Op>)
    ensures
        s.run(ops).max_logs == s.max_logs,
    decreases ops.len(),
{
    if ops.len() > 0 {
        lemma_run_keeps_max_logs(s, ops.drop_last());
    }
}

/// Whatever a session does, no per-name buffer holds more than `max_logs` lines.
pub proof fn law_container_buffers_bounded(max_logs: nat, ops: Seq<Op>, name: Seq<char>)
    requires
        Model::init(max_logs).run(ops).buffers.dom().contains(name),
    ensures
        Model::init(max_logs).run(ops).buffers[name].len() <= max_logs,
{
    Model::lemma_init_wf(max_logs);
    lemma_run_wf(Model::init(max_logs), ops);
    lemma_run_keeps_max_logs(Model::init(max_logs), ops);
}

/// Whatever a session does, the merged buffer holds no more than `max_logs` lines.
pub proof fn law_merged_buffer_bounded(max_logs: nat, ops: Seq<Op>)
    ensures
        Model::init(max_logs).run(ops).logs.len() <= max_logs,
{
    Model::lemma_init_wf(max_logs);
    lemma_run_wf(Model::init(max_logs), ops);
    lemma_run_keeps_max_logs(Model::init(max_logs), ops);
}

/// Whatever a session does, the list is in the order of its names, no id has
/// two rows, and the focus is on "ALL" or on a row of the list.
pub proof fn law_list_sorted_and_ids_unique(max_logs: nat, ops: Seq<Op>)
    ensures
        sorted_by_name(Model::init(max_logs).run(ops).containers),
        distinct_ids(Model::init(max_logs).run(ops).containers),
        Model::init(max_logs).run(ops).focus matches Cursor::Row(i) ==> i < Model::init(
            max_logs,
        ).run(ops).containers.len(),
{
    Model::lemma_init_wf(max_logs);
    lemma_run_wf(Model::init(max_logs), ops);
}

/// Whatever a session does, no two rows share a color index, and every index
/// in use is below the counter.
pub proof fn law_color_indices_unique(max_logs: nat, ops: Seq<Op>)
    ensures
        colors_assigned(
            Model::init(max_logs).run(ops).containers,
            Model::init(max_logs).run(ops).color_counter,
        ),
{
    Model::lemma_init_wf(max_logs);
    lemma_run_wf(Model::init(max_logs), ops);
}

/// A container that comes into the list gets the counter's value, which is
/// greater than every color index in the list, and the counter moves on by one.
pub proof fn law_color_indices_increase(s: Model, id: Seq<char>, name: Seq<char>)
    requires
        s.wf(),
        !has_id(s.containers, id),
    ensures
        s.add_container(id, name).color_counter == s.color_counter + 1,
        s.add_container(id, name).containers[slot_for(s.containers, name) as int].id == id,
        s.add_container(id, name).containers[slot_for(s.containers, name) as int].color_index
            == s.color_counter,
        forall|i: int|
            0 <= i < s.containers.len() ==> (#[trigger] s.containers[i]).color_index
                < s.color_counter,
{
    lemma_slot_for(s.containers, name);
}

/// No operation makes the counter of color indices smaller.
pub proof fn law_color_counter_never_decreases(s: Model, ops: Seq<Op>)
    ensures
        s.run(ops).color_counter >= s.color_counter,
    decreases ops.len(),
{
    if ops.len() > 0 {
        law_color_counter_never_decreases(s, ops.drop_last());
    }
}

/// With every row selected, the shares of the rows are their buffers.
pub proof fn lemma_gathered_all(cs: Seq<Entry>, buffers: Buffers)
    ensures
        gathered(with_all(cs, true), buffers) == every_buffer(cs, buffers),
    decreases cs.len(),
{
    if cs.len() > 0 {
        lemma_gathered_all(cs.drop_last(), buffers);
        assert(with_all(cs, true).drop_last() =~= with_all(cs.drop_last(), true));
    }
}

/// The buffers of the rows do not depend on which rows are selected.
pub proof fn lemma_every_buffer_ignores_marks(cs: Seq<Entry>, buffers: Buffers)
    ensures
        every_buffer(with_all(cs, true), buffers) == every_buffer(cs, buffers),
    decreases cs.len(),
{
    if cs.len() > 0 {
        lemma_every_buffer_ignores_marks(cs.drop_last(), buffers);
        assert(with_all(cs, true).drop_last() =~= with_all(cs.drop_last(), true));
    }
}

/// After `select_all`, the merged buffer is the last `max_logs` lines of all
/// buffers, taken in the order of the list.
pub proof fn law_select_all_shows_every_buffer(s: Model)
    ensures
        s.select_all().logs == tail(
            every_buffer(s.select_all().containers, s.select_all().buffers),
            s.max_logs,
        ),
{
    lemma_gathered_all(s.containers, s.buffers);
    lemma_every_buffer_ignores_marks(s.containers, s.buffers);
}

/// After `select_all`, any one operation, and `select_all` again, the merged
/// buffer is the last `max_logs` lines of all buffers, taken in the order of
/// the list, which is the order of the names.
pub proof fn law_select_all_after_any_op(s: Model, x: Op)
    requires
        s.wf(),
    ensures
        sorted_by_name(s.select_all().apply(x).select_all().containers),
        s.select_all().apply(x).select_all().logs == tail(
            every_buffer(
                s.select_all().apply(x).select_all().containers,
                s.select_all().apply(x).select_all().buffers,
            ),
            s.select_all().apply(x).select_all().max_logs,
        ),
{
    s.lemma_select_all_wf();
    lemma_apply_wf(s.select_all(), x);
    let t = s.select_all().apply(x);
    t.lemma_select_all_wf();
    law_select_all_shows_every_buffer(t);
}

/// From "ALL", `k` steps of `next` with `k` at most the number of rows lead
/// to row `k - 1`.
pub proof fn lemma_next_times(s: Model, k: nat)
    requires
        s.focus is All,
        1 <= k <= s.containers.len(),
    ensures
        s.next_times(k) == s.focused_at(Cursor::Row((k - 1) as nat)),
    decreases k,
{
    if k == 1 {
        assert(s.next_times(0) == s);
    } else {
        lemma_next_times(s, (k - 1) as nat);
    }
}

/// From "ALL", one step of `next` more than there are rows leads back to
/// "ALL", and nothing else has changed.
pub proof fn law_focus_cycle(s: Model)
    requires
        s.focus is All,
    ensures
        s.next_times(s.containers.len() + 1) == s,
{
    let n = s.containers.len();
    if n == 0 {
        assert(s.next_times(0) == s);
    } else {
        lemma_next_times(s, n);
    }
}

/// `select_all` twice is `select_all` once.
pub proof fn law_select_all_idempotent(s: Model)
    ensures
        s.select_all().select_all() == s.select_all(),
{
    assert(with_all(with_all(s.containers, true), true) =~= with_all(s.containers, true));
}

/// `toggle_selected` twice on one focused row gives back the state, merged
/// buffer included, where that buffer was in its rebuilt form.
pub proof fn law_toggle_twice_restores(s: Model)
    requires
        s.focus matches Cursor::Row(i) && i < s.containers.len(),
        s.logs == s.rebuilt_logs(),
    ensures
        s.toggle_selected().toggle_selected() == s,
{
    let i = s.focus->Row_0 as int;
    assert(flipped(flipped(s.containers, i), i) =~= s.containers);
}

/// Where the merged buffer is not in its rebuilt form, `toggle_selected`
/// twice on one focused row leaves it in that form.
pub proof fn law_toggle_twice_rebuilds(s: Model)
    requires
        s.focus matches Cursor::Row(i) && i < s.containers.len(),
    ensures
        s.toggle_selected().toggle_selected() == s.rebuilt(),
{
    let i = s.focus->Row_0 as int;
    assert(flipped(flipped(s.containers, i), i) =~= s.containers);
}

/// `add_container` twice with the same id and name is `add_container` once.
pub proof fn law_add_container_idempotent(s: Model, id: Seq<char>, name: Seq<char>)
    ensures
        s.add_container(id, name).add_container(id, name) == s.add_container(id, name),
{
    if !has_id(s.containers, id) {
        lemma_slot_for(s.containers, name);
        let p = slot_for(s.containers, name) as int;
        let after = s.add_container(id, name);
        assert(after.containers[p].id == id);
    }
}

/// A container whose id is in the list changes nothing. One whose id is new
/// comes into the list at the place of its name: the list stays in the order
/// of its names, the one new row is selected and has the id, the name and the
/// counter's value, and the rows that were there stay as they were and in
/// their order.
pub proof fn law_add_container_inserts_one_row(s: Model, id: Seq<char>, name: Seq<char>)
    requires
        s.wf(),
    ensures
        has_id(s.containers, id) ==> s.add_container(id, name) == s,
        !has_id(s.containers, id) ==> ({
            let k = slot_for(s.containers, name) as int;
            let after = s.add_container(id, name).containers;
            &&& 0 <= k <= s.containers.len()
            &&& after.len() == s.containers.len() + 1
            &&& after[k] == (Entry { id, name, selected: true, color_index: s.color_counter })
            &&& forall|i: int| 0 <= i < k ==> after[i] == s.containers[i]
            &&& forall|i: int| k <= i < s.containers.len() ==> after[i + 1] == s.containers[i]
            &&& sorted_by_name(after)
            &&& s.add_container(id, name).color_counter == s.color_counter + 1
        }),
{
    if !has_id(s.containers, id) {
        lemma_slot_for(s.containers, name);
        s.lemma_add_container_wf(id, name);
    }
}

/// The row with the id `id` is the only one with that id.
pub proof fn lemma_index_of_id(cs: Seq<Entry>, id: Seq<char>, k: int)
    requires
        distinct_ids(cs),
        0 <= k < cs.len(),
        cs[k].id == id,
    ensures
        index_of_id(cs, id) == k,
{
    let chosen = index_of_id(cs, id);
    if chosen < k {
        assert(cs[chosen].id != cs[k].id);
    } else if k < chosen {
        assert(cs[k].id != cs[chosen].id);
    }
}

/// A container keeps its name and its color index for as long as it is in
/// the list, whatever is done to the state.
pub proof fn law_rows_keep_name_and_color(s: Model, op: Op, id: Seq<char>)
    requires
        s.wf(),
        has_id(s.containers, id),
        has_id(s.apply(op).containers, id),
    ensures
        s.apply(op).containers[index_of_id(s.apply(op).containers, id)].name
            == s.containers[index_of_id(s.containers, id)].name,
        s.apply(op).containers[index_of_id(s.apply(op).containers, id)].color_index
            == s.containers[index_of_id(s.containers, id)].color_index,
{
    lemma_apply_wf(s, op);
    let before = s.containers;
    let after = s.apply(op).containers;
    let k = index_of_id(before, id);
    let j = index_of_id(after, id);
    match op {
        Op::AddContainer { id: new_id, name } => {
            if !has_id(before, new_id) {
                lemma_slot_for(before, name);
                let p = slot_for(before, name) as int;
                let moved = if k < p {
                    k
                } else {
                    k + 1
                };
                assert(after[moved] == before[k]);
                lemma_index_of_id(after, id, moved);
            }
        },
        Op::RemoveContainer { id: gone } => {
            if has_id(before, gone) {
                let g = index_of_id(before, gone);
                let rest = before.remove(g);
                assert(after[j].id == rest[j].id);
                let from = if j < g {
                    j
                } else {
                    j + 1
                };
                assert(rest[j] == before[from]);
                lemma_index_of_id(before, id, from);
            }
        },
        Op::ToggleSelected => {
            assert(after[k].id == id) by {
                assert(after.len() == before.len());
            }
            lemma_index_of_id(after, id, k);
        },
        Op::SelectAll => {
            assert(after[k].id == id);
            lemma_index_of_id(after, id, k);
        },
        Op::DeselectAll => {
            assert(after[k].id == id);
            lemma_index_of_id(after, id, k);
        },
        _ => {},
    }
}

/// A line that has come is the newest of its buffer, and the newest of the
/// merged buffer if a selected container has its name, unless the buffers
/// keep no lines at all.
pub proof fn law_newest_line_is_last(s: Model, name: Seq<char>, line: Line)
    requires
        s.wf(),
        s.max_logs > 0,
    ensures
        s.add_log(name, line).buffers.dom().contains(name),
        s.add_log(name, line).buffers[name].last() == line,
        name_selected(s.containers, name) ==> s.add_log(name, line).logs.last() == line,
        !name_selected(s.containers, name) ==> s.add_log(name, line).logs == s.logs,
{
}

/// The lines of a buffer stay in the order in which they came: a new line
/// leaves those before it as they were, less the oldest where the buffer
/// was full.
pub proof fn law_lines_keep_their_order(s: Model, name: Seq<char>, line: Line)
    requires
        s.wf(),
        s.buffers.dom().contains(name),
    ensures
        s.buffers[name].len() < s.max_logs ==> s.add_log(name, line).buffers[name]
            == s.buffers[name].push(line),
        s.buffers[name].len() == s.max_logs ==> s.add_log(name, line).buffers[name]
            == s.buffers[name].push(line).drop_first(),
{
}

} // verus!
