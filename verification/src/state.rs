//! The viewer's state as it runs: the container list, the ring buffers of
//! recent lines, the merged buffer that the log pane shows, the focus and the
//! info overlay. Every operation is proved against the model.

use std::collections::VecDeque;
use vstd::prelude::*;
use crate::model::{
    all_selected, flipped, gathered, has_id, has_name, index_of_id, lemma_slot_for_is, marked,
    name_selected, push_bounded, selected_count, tail, with_all, with_name_selected, Buffers,
    Cursor, Entry, Line, Model,
};
use crate::text::{name_le, str_le};

verus! {

/// One container of the list.
#[derive(Debug, Clone)]
pub struct ContainerInfo {
    pub id: String,
    pub name: String,
    pub selected: bool,
    pub color_index: usize,
}

impl View for ContainerInfo {
    type V = Entry;

    open spec fn view(&self) -> Entry {
        Entry {
            id: self.id@,
            name: self.name@,
            selected: self.selected,
            color_index: self.color_index as nat,
        }
    }
}

/// Where the focus is: on the "ALL" row, or on a row of the container list.
#[derive(Debug, Clone, Copy, PartialEq, Eq, Structural)]
pub enum Focus {
    All,
    Row(usize),
}

impl View for Focus {
    type V = Cursor;

    open spec fn view(&self) -> Cursor {
        match self {
            Focus::All => Cursor::All,
            Focus::Row(i) => Cursor::Row(*i as nat),
        }
    }
}

/// The ring buffer of one container name.
struct NamedLog {
    name: String,
    lines: VecDeque<String>,
}

/// The state of one session.
pub struct AppState {
    containers: Vec<ContainerInfo>,
    focus: Focus,
    logs: VecDeque<String>,
    max_logs: usize,
    container_logs: Vec<NamedLog>,
    color_counter: usize,
    show_info: bool,
    info_text: String,
}

/// The rows that a list of containers stands for.
pub open spec fn entries(cs: Seq<ContainerInfo>) -> Seq<Entry> {
    Seq::new(cs.len(), |i: int| cs[i]@)
}

/// The lines that a sequence of strings stands for.
pub open spec fn texts(lines: Seq<String>) -> Seq<Line> {
    Seq::new(lines.len(), |i: int| lines[i]@)
}

/// The lines of a sequence with one more string are the lines of the sequence with one more line.
pub proof fn lemma_texts_push(lines: Seq<String>, line: String)
    ensures
        texts(lines.push(line)) == texts(lines).push(line@),
{
    assert(texts(lines.push(line)) =~= texts(lines).push(line@));
}

/// The first `k + 1` lines are the first `k` lines and line `k`.
pub proof fn lemma_texts_take(lines: Seq<String>, k: int)
    requires
        0 <= k < lines.len(),
    ensures
        texts(lines).take(k + 1) == texts(lines).take(k).push(lines[k]@),
{
    assert(texts(lines).take(k + 1) =~= texts(lines).take(k).push(lines[k]@));
}

spec fn store_has(store: Seq<NamedLog>, name: Seq<char>) -> bool {
    exists|i: int| 0 <= i < store.len() && (#[trigger] store[i]).name@ == name
}

spec fn store_index(store: Seq<NamedLog>, name: Seq<char>) -> int {
    choose|i: int| 0 <= i < store.len() && (#[trigger] store[i]).name@ == name
}

spec fn store_view(store: Seq<NamedLog>) -> Buffers {
    Map::new(
        |name: Seq<char>| store_has(store, name),
        |name: Seq<char>| texts(store[store_index(store, name)].lines@),
    )
}

spec fn distinct_names(store: Seq<NamedLog>) -> bool {
    forall|i: int, j: int|
        #![trigger store[i], store[j]]
        0 <= i < j < store.len() ==> store[i].name@ != store[j].name@
}

proof fn lemma_store_lookup(store: Seq<NamedLog>, j: int)
    requires
        distinct_names(store),
        0 <= j < store.len(),
    ensures
        store_has(store, store[j].name@),
        store_index(store, store[j].name@) == j,
        store_view(store).dom().contains(store[j].name@),
        store_view(store)[store[j].name@] == texts(store[j].lines@),
{
    let name = store[j].name@;
    assert(store_has(store, name));
    let k = store_index(store, name);
    if k < j {
        assert(store[k].name@ != store[j].name@);
    } else if j < k {
        assert(store[j].name@ != store[k].name@);
    }
}

proof fn lemma_store_updated(old_store: Seq<NamedLog>, new_store: Seq<NamedLog>, j: int)
    requires
        distinct_names(old_store),
        0 <= j < old_store.len(),
        new_store.len() == old_store.len(),
        forall|i: int| 0 <= i < old_store.len() ==> (#[trigger] new_store[i]).name@ == old_store[i].name@,
        forall|i: int| 0 <= i < old_store.len() && i != j ==> (#[trigger] new_store[i]).lines@ == old_store[i].lines@,
    ensures
        distinct_names(new_store),
        store_view(new_store) == store_view(old_store).insert(
            old_store[j].name@,
            texts(new_store[j].lines@),
        ),
{
    assert forall|a: int, b: int| 0 <= a < b < new_store.len() implies new_store[a].name@
        != new_store[b].name@ by {
        assert(old_store[a].name@ != old_store[b].name@);
    }
    let left = store_view(new_store);
    let right = store_view(old_store).insert(old_store[j].name@, texts(new_store[j].lines@));
    assert forall|name: Seq<char>| left.dom().contains(name) <==> right.dom().contains(name) by {
        if store_has(new_store, name) {
            let i = store_index(new_store, name);
            assert(old_store[i].name@ == name);
        }
        if store_has(old_store, name) {
            let i = store_index(old_store, name);
            assert(new_store[i].name@ == name);
        }
        assert(new_store[j].name@ == old_store[j].name@);
    }
    assert forall|name: Seq<char>| left.dom().contains(name) implies left[name] == right[name] by {
        let i = store_index(new_store, name);
        lemma_store_lookup(new_store, i);
        if i != j {
            assert(old_store[i].name@ == name);
            lemma_store_lookup(old_store, i);
            assert(old_store[i].name@ != old_store[j].name@) by {
                if i < j {
                    assert(old_store[i].name@ != old_store[j].name@);
                } else {
                    assert(old_store[j].name@ != old_store[i].name@);
                }
            }
        }
    }
    assert(left =~= right);
}

proof fn lemma_store_pushed(store: Seq<NamedLog>, item: NamedLog)
    requires
        distinct_names(store),
        !store_has(store, item.name@),
    ensures
        distinct_names(store.push(item)),
        store_view(store.push(item)) == store_view(store).insert(item.name@, texts(item.lines@)),
{
    let grown = store.push(item);
    assert forall|a: int, b: int| 0 <= a < b < grown.len() implies grown[a].name@
        != grown[b].name@ by {
        if b < store.len() {
            assert(store[a].name@ != store[b].name@);
        } else {
            assert(grown[a] == store[a]);
        }
    }
    let left = store_view(grown);
    let right = store_view(store).insert(item.name@, texts(item.lines@));
    assert(grown[store.len() as int] == item);
    assert forall|name: Seq<char>| left.dom().contains(name) <==> right.dom().contains(name) by {
        if store_has(grown, name) {
            let i = store_index(grown, name);
            if i < store.len() {
                assert(store[i].name@ == name);
            }
        }
        if store_has(store, name) {
            let i = store_index(store, name);
            assert(grown[i].name@ == name);
        }
    }
    assert forall|name: Seq<char>| left.dom().contains(name) implies left[name] == right[name] by {
        let i = store_index(grown, name);
        lemma_store_lookup(grown, i);
        if i < store.len() {
            assert(grown[i] == store[i]);
            lemma_store_lookup(store, i);
        }
    }
    assert(left =~= right);
}

proof fn lemma_store_removed(store: Seq<NamedLog>, j: int)
    requires
        distinct_names(store),
        0 <= j < store.len(),
    ensures
        distinct_names(store.remove(j)),
        store_view(store.remove(j)) == store_view(store).remove(store[j].name@),
{
    let rest = store.remove(j);
    assert forall|a: int, b: int| 0 <= a < b < rest.len() implies rest[a].name@
        != rest[b].name@ by {
        let x = if a < j {
            a
        } else {
            a + 1
        };
        let y = if b < j {
            b
        } else {
            b + 1
        };
        assert(rest[a] == store[x] && rest[b] == store[y]);
        assert(store[x].name@ != store[y].name@);
    }
    let left = store_view(rest);
    let right = store_view(store).remove(store[j].name@);
    assert forall|name: Seq<char>| left.dom().contains(name) <==> right.dom().contains(name) by {
        if store_has(rest, name) {
            let i = store_index(rest, name);
            let x = if i < j {
                i
            } else {
                i + 1
            };
            assert(rest[i] == store[x]);
            assert(store[x].name@ == name);
            lemma_store_lookup(store, x);
            lemma_store_lookup(store, j);
        }
        if store_has(store, name) && name != store[j].name@ {
            let x = store_index(store, name);
            let i = if x < j {
                x
            } else {
                x - 1
            };
            assert(rest[i] == store[x]);
        }
    }
    assert forall|name: Seq<char>| left.dom().contains(name) implies left[name] == right[name] by {
        let i = store_index(rest, name);
        let x = if i < j {
            i
        } else {
            i + 1
        };
        assert(rest[i] == store[x]);
        lemma_store_lookup(rest, i);
        lemma_store_lookup(store, x);
    }
    assert(left =~= right);
}

/// The index of the buffer named `name`, if there is one.
fn find_buffer(store: &Vec<NamedLog>, name: &String) -> (found: Option<usize>)
    ensures
        match found {
            Some(j) => j < store@.len() && store@[j as int].name@ == name@,
            None => !store_has(store@, name@),
        },
{
    let mut i: usize = 0;
    while i < store.len()
        invariant
            i <= store@.len(),
            forall|k: int| 0 <= k < i ==> (#[trigger] store@[k]).name@ != name@,
        decreases store@.len() - i,
    {
        if store[i].name == *name {
            return Some(i);
        }
        i += 1;
    }
    None
}

/// The index of the container with the id `id`, if there is one.
fn find_id(containers: &Vec<ContainerInfo>, id: &String) -> (found: Option<usize>)
    ensures
        match found {
            Some(k) => k < containers@.len() && containers@[k as int].id@ == id@,
            None => !has_id(entries(containers@), id@),
        },
{
    let mut i: usize = 0;
    while i < containers.len()
        invariant
            i <= containers@.len(),
            forall|k: int| 0 <= k < i ==> (#[trigger] containers@[k]).id@ != id@,
        decreases containers@.len() - i,
    {
        if containers[i].id == *id {
            return Some(i);
        }
        i += 1;
    }
    proof {
        let es = entries(containers@);
        assert forall|k: int| 0 <= k < es.len() implies (#[trigger] es[k]).id != id@ by {
            assert(containers@[k].id@ != id@);
        }
    }
    None
}

/// Whether some container is named `name`.
fn any_named(containers: &Vec<ContainerInfo>, name: &String) -> (found: bool)
    ensures
        found == has_name(entries(containers@), name@),
{
    let mut i: usize = 0;
    while i < containers.len()
        invariant
            i <= containers@.len(),
            forall|k: int| 0 <= k < i ==> (#[trigger] containers@[k]).name@ != name@,
        decreases containers@.len() - i,
    {
        if containers[i].name == *name {
            assert(entries(containers@)[i as int].name == name@);
            return true;
        }
        i += 1;
    }
    proof {
        let es = entries(containers@);
        assert forall|k: int| 0 <= k < es.len() implies (#[trigger] es[k]).name != name@ by {
            assert(containers@[k].name@ != name@);
        }
    }
    false
}

/// Sets the mark of every container.
fn mark_all(containers: &mut Vec<ContainerInfo>, selected: bool)
    ensures
        entries(final(containers)@) == with_all(entries(old(containers)@), selected),
{
    let mut i: usize = 0;
    while i < containers.len()
        invariant
            i <= containers@.len(),
            containers@.len() == old(containers)@.len(),
            forall|k: int| 0 <= k < i ==> (#[trigger] containers@[k])@ == marked(old(containers)@[k]@, selected),
            forall|k: int| i <= k < containers@.len() ==> (#[trigger] containers@[k]) == old(containers)@[k],
        decreases containers@.len() - i,
    {
        containers[i].selected = selected;
        i += 1;
    }
    assert(entries(containers@) =~= with_all(entries(old(containers)@), selected));
}

/// Selects every container named `name`.
fn mark_named(containers: &mut Vec<ContainerInfo>, name: &String)
    ensures
        entries(final(containers)@) == with_name_selected(entries(old(containers)@), name@),
{
    let mut i: usize = 0;
    while i < containers.len()
        invariant
            i <= containers@.len(),
            containers@.len() == old(containers)@.len(),
            forall|k: int|
                0 <= k < i ==> (#[trigger] containers@[k])@ == with_name_selected(
                    entries(old(containers)@),
                    name@,
                )[k],
            forall|k: int| i <= k < containers@.len() ==> (#[trigger] containers@[k]) == old(containers)@[k],
        decreases containers@.len() - i,
    {
        if containers[i].name == *name {
            containers[i].selected = true;
        }
        i += 1;
    }
    assert(entries(containers@) =~= with_name_selected(entries(old(containers)@), name@));
}

/// Whether every container is selected.
fn every_selected(containers: &Vec<ContainerInfo>) -> (r: bool)
    ensures
        r == all_selected(entries(containers@)),
{
    let mut i: usize = 0;
    while i < containers.len()
        invariant
            i <= containers@.len(),
            forall|k: int| 0 <= k < i ==> (#[trigger] containers@[k]).selected,
        decreases containers@.len() - i,
    {
        if !containers[i].selected {
            assert(!entries(containers@)[i as int].selected);
            return false;
        }
        i += 1;
    }
    proof {
        let es = entries(containers@);
        assert forall|k: int| 0 <= k < es.len() implies (#[trigger] es[k]).selected by {
            assert(containers@[k].selected);
        }
    }
    true
}

/// Pushes `line` onto `lines` and drops the oldest line if that makes more than `cap`.
fn push_line(lines: &mut VecDeque<String>, line: String, cap: usize)
    ensures
        texts(final(lines)@) == push_bounded(texts(old(lines)@), line@, cap as nat),
{
    lines.push_back(line);
    if lines.len() > cap {
        let _ = lines.pop_front();
    }
    assert(texts(lines@) =~= push_bounded(texts(old(lines)@), line@, cap as nat));
}

/// The merged buffer for the given selection and buffers.
fn gather(containers: &Vec<ContainerInfo>, store: &Vec<NamedLog>, max_logs: usize) -> (merged:
    VecDeque<String>)
    requires
        distinct_names(store@),
    ensures
        texts(merged@) == tail(gathered(entries(containers@), store_view(store@)), max_logs as nat),
{
    let ghost buffers = store_view(store@);
    let ghost es = entries(containers@);
    let mut all: Vec<String> = Vec::new();
    let mut i: usize = 0;
    while i < containers.len()
        invariant
            i <= containers@.len(),
            distinct_names(store@),
            buffers == store_view(store@),
            es == entries(containers@),
            texts(all@) == gathered(es.take(i as int), buffers),
        decreases containers@.len() - i,
    {
        let ghost before = texts(all@);
        proof {
            let upto = es.take(i + 1);
            assert(upto.drop_last() =~= es.take(i as int));
            assert(upto.last() == containers@[i as int]@);
        }
        if containers[i].selected {
            match find_buffer(store, &containers[i].name) {
                Some(j) => {
                    proof {
                        lemma_store_lookup(store@, j as int);
                    }
                    let lines = &store[j].lines;
                    let mut k: usize = 0;
                    while k < lines.len()
                        invariant
                            k <= lines@.len(),
                            texts(all@) == before + texts(lines@).take(k as int),
                        decreases lines@.len() - k,
                    {
                        proof {
                            lemma_texts_push(all@, lines@[k as int]);
                            lemma_texts_take(lines@, k as int);
                        }
                        all.push(lines[k].clone());
                        k += 1;
                        assert(texts(all@) =~= before + texts(lines@).take(k as int));
                    }
                    assert(texts(lines@).take(lines@.len() as int) =~= texts(lines@));
                },
                None => {
                    assert(texts(all@) =~= before + Seq::<Line>::empty());
                },
            }
        } else {
            assert(texts(all@) =~= before + Seq::<Line>::empty());
        }
        i += 1;
    }
    assert(es.take(containers@.len() as int) =~= es);
    let start: usize = if all.len() > max_logs {
        all.len() - max_logs
    } else {
        0
    };
    let mut merged: VecDeque<String> = VecDeque::new();
    let mut k: usize = start;
    while k < all.len()
        invariant
            start <= k <= all@.len(),
            texts(merged@) == texts(all@).subrange(start as int, k as int),
        decreases all@.len() - k,
    {
        proof {
            lemma_texts_push(merged@, all@[k as int]);
        }
        merged.push_back(all[k].clone());
        k += 1;
        assert(texts(merged@) =~= texts(all@).subrange(start as int, k as int));
    }
    assert(texts(merged@) =~= tail(texts(all@), max_logs as nat));
    merged
}

impl View for AppState {
    type V = Model;

    closed spec fn view(&self) -> Model {
        Model {
            containers: entries(self.containers@),
            focus: self.focus@,
            logs: texts(self.logs@),
            max_logs: self.max_logs as nat,
            buffers: store_view(self.container_logs@),
            color_counter: self.color_counter as nat,
            show_info: self.show_info,
            info_text: self.info_text@,
        }
    }
}

/// The lines of `source`, oldest first.
fn copied(source: &VecDeque<String>) -> (lines: Vec<String>)
    ensures
        texts(lines@) == texts(source@),
{
    let mut lines: Vec<String> = Vec::new();
    let mut i: usize = 0;
    while i < source.len()
        invariant
            i <= source@.len(),
            texts(lines@) == texts(source@).take(i as int),
        decreases source@.len() - i,
    {
        proof {
            lemma_texts_push(lines@, source@[i as int]);
            lemma_texts_take(source@, i as int);
        }
        lines.push(source[i].clone());
        i += 1;
    }
    assert(texts(source@).take(source@.len() as int) =~= texts(source@));
    lines
}

impl AppState {
    /// The invariant: that of the model, and buffers with distinct names.
    pub closed spec fn wf(&self) -> bool {
        &&& self@.wf()
        &&& distinct_names(self.container_logs@)
    }

    /// A state that meets the invariant has a model that does.
    pub proof fn lemma_wf_model(&self)
        requires
            self.wf(),
        ensures
            self@.wf(),
    {
    }

    /// The state of a new session that keeps `max_logs` lines per buffer.
    pub fn new(max_logs: usize) -> (state: AppState)
        ensures
            state.wf(),
            state@ == Model::init(max_logs as nat),
    {
        let state = AppState {
            containers: Vec::new(),
            focus: Focus::All,
            logs: VecDeque::new(),
            max_logs,
            container_logs: Vec::new(),
            color_counter: 0,
            show_info: false,
            info_text: String::new(),
        };
        proof {
            assert(state@.containers =~= Seq::<Entry>::empty());
            assert(state@.logs =~= Seq::<Line>::empty());
            assert(state@.buffers =~= Map::<Seq<char>, Seq<Line>>::empty());
        }
        state
    }

    /// The container list, in the order in which it is shown.
    pub fn containers(&self) -> (list: &Vec<ContainerInfo>)
        ensures
            entries(list@) == self@.containers,
    {
        &self.containers
    }

    /// Where the focus is.
    pub fn focus(&self) -> (focus: Focus)
        ensures
            focus@ == self@.focus,
    {
        self.focus
    }

    /// Whether the focus is on the "ALL" row.
    pub fn select_all_focused(&self) -> (r: bool)
        ensures
            r == (self@.focus is All),
    {
        match self.focus {
            Focus::All => true,
            Focus::Row(_) => false,
        }
    }

    /// The number of lines that each buffer keeps.
    pub fn max_logs(&self) -> (n: usize)
        ensures
            n == self@.max_logs,
    {
        self.max_logs
    }

    /// The color index that the next new container gets.
    pub fn color_counter(&self) -> (n: usize)
        ensures
            n == self@.color_counter,
    {
        self.color_counter
    }

    /// Whether the info overlay is open.
    pub fn show_info(&self) -> (r: bool)
        ensures
            r == self@.show_info,
    {
        self.show_info
    }

    /// The text of the info overlay.
    pub fn info_text(&self) -> (text: &String)
        ensures
            text@ == self@.info_text,
    {
        &self.info_text
    }

    /// The number of lines in the merged buffer.
    pub fn log_count(&self) -> (n: usize)
        ensures
            n == self@.logs.len(),
    {
        self.logs.len()
    }

    /// Line `i` of the merged buffer, the oldest being line 0.
    pub fn log_at(&self, i: usize) -> (line: &String)
        requires
            i < self@.logs.len(),
        ensures
            line@ == self@.logs[i as int],
    {
        &self.logs[i]
    }

    /// The merged buffer, oldest line first.
    pub fn logs(&self) -> (lines: Vec<String>)
        ensures
            texts(lines@) == self@.logs,
    {
        copied(&self.logs)
    }

    /// The buffer of the containers named `name`, oldest line first, if there is one.
    pub fn container_logs(&self, name: &str) -> (lines: Option<Vec<String>>)
        requires
            self.wf(),
        ensures
            match lines {
                Some(v) => self@.buffers.dom().contains(name@) && texts(v@) == self@.buffers[name@],
                None => !self@.buffers.dom().contains(name@),
            },
    {
        let key = name.to_owned();
        match find_buffer(&self.container_logs, &key) {
            Some(j) => {
                proof {
                    lemma_store_lookup(self.container_logs@, j as int);
                }
                Some(copied(&self.container_logs[j].lines))
            },
            None => None,
        }
    }

    /// Moves the focus one row down, from the last row to "ALL".
    pub fn next(&mut self)
        requires
            old(self).wf(),
        ensures
            final(self).wf(),
            final(self)@ == old(self)@.next(),
    {
        proof {
            self@.lemma_next_wf();
        }
        match self.focus {
            Focus::All => {
                if self.containers.len() > 0 {
                    self.focus = Focus::Row(0);
                }
            },
            Focus::Row(i) => {
                let rows = self.containers.len();
                assert(self@.focus == Cursor::Row(i as nat));
                if i + 1 >= rows {
                    self.focus = Focus::All;
                } else {
                    self.focus = Focus::Row(i + 1);
                }
            },
        }
    }

    /// Moves the focus one row up, from the first row to "ALL".
    pub fn previous(&mut self)
        requires
            old(self).wf(),
        ensures
            final(self).wf(),
            final(self)@ == old(self)@.previous(),
    {
        proof {
            self@.lemma_previous_wf();
        }
        match self.focus {
            Focus::All => {
                if self.containers.len() > 0 {
                    self.focus = Focus::Row(self.containers.len() - 1);
                }
            },
            Focus::Row(i) => {
                if i == 0 {
                    self.focus = Focus::All;
                } else {
                    self.focus = Focus::Row(i - 1);
                }
            },
        }
    }

    /// Rebuilds the merged buffer from the buffers of the selected containers.
    pub fn update_displayed_logs(&mut self)
        requires
            old(self).wf(),
        ensures
            final(self).wf(),
            final(self)@ == old(self)@.rebuilt(),
    {
        self.logs = gather(&self.containers, &self.container_logs, self.max_logs);
    }

    /// Selects every container and rebuilds the merged buffer.
    pub fn select_all(&mut self)
        requires
            old(self).wf(),
        ensures
            final(self).wf(),
            final(self)@ == old(self)@.select_all(),
    {
        proof {
            self@.lemma_select_all_wf();
        }
        mark_all(&mut self.containers, true);
        self.logs = gather(&self.containers, &self.container_logs, self.max_logs);
    }

    /// Deselects every container and rebuilds the merged buffer.
    pub fn deselect_all(&mut self)
        requires
            old(self).wf(),
        ensures
            final(self).wf(),
            final(self)@ == old(self)@.deselect_all(),
    {
        proof {
            self@.lemma_deselect_all_wf();
        }
        mark_all(&mut self.containers, false);
        self.logs = gather(&self.containers, &self.container_logs, self.max_logs);
    }

    /// Acts on the focused row: on "ALL", deselects all containers if all are
    /// selected and selects all otherwise; on a container, turns its mark over.
    pub fn toggle_selected(&mut self)
        requires
            old(self).wf(),
        ensures
            final(self).wf(),
            final(self)@ == old(self)@.toggle_selected(),
    {
        proof {
            self@.lemma_toggle_selected_wf();
        }
        match self.focus {
            Focus::All => {
                if every_selected(&self.containers) {
                    self.deselect_all();
                } else {
                    self.select_all();
                }
            },
            Focus::Row(i) => {
                if i < self.containers.len() {
                    self.containers[i].selected = !self.containers[i].selected;
                    assert(entries(self.containers@) =~= flipped(
                        entries(old(self).containers@),
                        i as int,
                    ));
                    self.logs = gather(&self.containers, &self.container_logs, self.max_logs);
                }
            },
        }
    }

    /// Whether every container is selected; true of an empty list.
    pub fn all_selected(&self) -> (r: bool)
        ensures
            r == all_selected(self@.containers),
    {
        every_selected(&self.containers)
    }

    /// The number of selected containers.
    pub fn selected_count(&self) -> (n: usize)
        ensures
            n == selected_count(self@.containers),
    {
        let ghost es = entries(self.containers@);
        let mut n: usize = 0;
        let mut i: usize = 0;
        while i < self.containers.len()
            invariant
                i <= self.containers@.len(),
                es == entries(self.containers@),
                n == selected_count(es.take(i as int)),
                n <= i,
            decreases self.containers@.len() - i,
        {
            proof {
                let upto = es.take(i + 1);
                assert(upto.drop_last() =~= es.take(i as int));
                assert(upto.last() == self.containers@[i as int]@);
            }
            if self.containers[i].selected {
                n += 1;
            }
            i += 1;
        }
        assert(es.take(self.containers@.len() as int) =~= es);
        n
    }

    /// Whether a selected container is named `container_name`.
    pub fn is_container_selected(&self, container_name: &str) -> (r: bool)
        ensures
            r == name_selected(self@.containers, container_name@),
    {
        let key = container_name.to_owned();
        let mut i: usize = 0;
        while i < self.containers.len()
            invariant
                i <= self.containers@.len(),
                key@ == container_name@,
                forall|k: int|
                    0 <= k < i ==> !((#[trigger] self.containers@[k]).name@ == key@
                        && self.containers@[k].selected),
            decreases self.containers@.len() - i,
        {
            if self.containers[i].name == key && self.containers[i].selected {
                assert(entries(self.containers@)[i as int].name == key@);
                return true;
            }
            i += 1;
        }
        proof {
            let es = entries(self.containers@);
            assert forall|k: int| 0 <= k < es.len() implies !((#[trigger] es[k]).name == key@
                && es[k].selected) by {
                assert(!(self.containers@[k].name@ == key@ && self.containers@[k].selected));
            }
        }
        false
    }

    /// Takes in one line of the container named `container_name`: it goes to
    /// the buffer of that name, and to the merged buffer if a selected
    /// container has the name. Each keeps its last `max_logs` lines.
    pub fn add_log(&mut self, container_name: &str, log_line: String)
        requires
            old(self).wf(),
        ensures
            final(self).wf(),
            final(self)@ == old(self)@.add_log(container_name@, log_line@),
    {
        proof {
            self@.lemma_add_log_wf(container_name@, log_line@);
        }
        let key = container_name.to_owned();
        let ghost old_store = self.container_logs@;
        match find_buffer(&self.container_logs, &key) {
            Some(j) => {
                proof {
                    lemma_store_lookup(old_store, j as int);
                }
                push_line(&mut self.container_logs[j].lines, log_line.clone(), self.max_logs);
                proof {
                    lemma_store_updated(old_store, self.container_logs@, j as int);
                }
            },
            None => {
                let mut lines: VecDeque<String> = VecDeque::new();
                push_line(&mut lines, log_line.clone(), self.max_logs);
                let item = NamedLog { name: key, lines };
                proof {
                    assert(texts(Seq::<String>::empty()) =~= Seq::<Line>::empty());
                    lemma_store_pushed(old_store, item);
                }
                self.container_logs.push(item);
            },
        }
        if self.is_container_selected(container_name) {
            push_line(&mut self.logs, log_line, self.max_logs);
        }
    }

    /// Takes a container into the list, selected and with the next color
    /// index, unless its id is there already. The list stays in the order of
    /// its names; the first container to come takes the focus.
    pub fn add_container(&mut self, id: String, name: String)
        requires
            old(self).wf(),
            old(self)@.color_counter < usize::MAX || has_id(old(self)@.containers, id@),
        ensures
            final(self).wf(),
            final(self)@ == old(self)@.add_container(id@, name@),
    {
        proof {
            self@.lemma_add_container_wf(id@, name@);
        }
        let found = find_id(&self.containers, &id);
        if found.is_none() {
            let ghost es = entries(self.containers@);
            let mut slot: usize = 0;
            while slot < self.containers.len() && str_le(
                self.containers[slot].name.as_str(),
                name.as_str(),
            )
                invariant
                    slot <= self.containers@.len(),
                    es == entries(self.containers@),
                    forall|k: int| 0 <= k < slot ==> name_le((#[trigger] es[k]).name, name@),
                decreases self.containers@.len() - slot,
            {
                assert(es[slot as int].name == self.containers@[slot as int].name@);
                slot += 1;
            }
            proof {
                if slot < self.containers@.len() {
                    assert(es[slot as int].name == self.containers@[slot as int].name@);
                }
                lemma_slot_for_is(es, name@, slot as int);
            }
            let first = self.containers.len() == 0;
            let entry = ContainerInfo { id, name, selected: true, color_index: self.color_counter };
            self.color_counter += 1;
            self.containers.insert(slot, entry);
            if first {
                self.focus = Focus::Row(0);
            }
            assert(entries(self.containers@) =~= es.insert(slot as int, entry@));
            self.logs = gather(&self.containers, &self.container_logs, self.max_logs);
        } else {
            assert(entries(self.containers@)[found.unwrap() as int].id == id@);
        }
    }

    /// Takes the container with the id `id` out of the list and drops the
    /// buffer of its name. Containers of the same name that remain become
    /// selected; if there are none, every container does.
    pub fn remove_container(&mut self, id: &str)
        requires
            old(self).wf(),
        ensures
            final(self).wf(),
            final(self)@ == old(self)@.remove_container(id@),
    {
        proof {
            self@.lemma_remove_container_wf(id@);
        }
        let key = id.to_owned();
        let ghost es = entries(self.containers@);
        match find_id(&self.containers, &key) {
            Some(k) => {
                proof {
                    assert(es[k as int].id == id@);
                    let chosen = index_of_id(es, id@);
                    if chosen < k {
                        assert(es[chosen].id != es[k as int].id);
                    } else if k < chosen {
                        assert(es[k as int].id != es[chosen].id);
                    }
                }
                let removed = self.containers.remove(k);
                assert(entries(self.containers@) =~= es.remove(k as int));
                if any_named(&self.containers, &removed.name) {
                    mark_named(&mut self.containers, &removed.name);
                } else {
                    mark_all(&mut self.containers, true);
                }
                match find_buffer(&self.container_logs, &removed.name) {
                    Some(j) => {
                        proof {
                            lemma_store_lookup(self.container_logs@, j as int);
                            lemma_store_removed(self.container_logs@, j as int);
                        }
                        let _ = self.container_logs.remove(j);
                    },
                    None => {
                        assert(store_view(self.container_logs@) =~= store_view(
                            self.container_logs@,
                        ).remove(removed.name@));
                    },
                }
                match self.focus {
                    Focus::All => {},
                    Focus::Row(i) => {
                        if self.containers.len() == 0 {
                            self.focus = Focus::All;
                        } else if i >= self.containers.len() {
                            self.focus = Focus::Row(self.containers.len() - 1);
                        }
                    },
                }
            },
            None => {},
        }
        self.logs = gather(&self.containers, &self.container_logs, self.max_logs);
    }

    /// The id of the focused container, if the focus is on one.
    pub fn focused_id(&self) -> (id: Option<String>)
        requires
            self.wf(),
        ensures
            match self@.focus {
                Cursor::All => id is None,
                Cursor::Row(i) => id matches Some(s) && s@ == self@.containers[i as int].id,
            },
    {
        match self.focus {
            Focus::All => None,
            Focus::Row(i) => Some(self.containers[i].id.clone()),
        }
    }

    /// Opens the info overlay on `text`.
    pub fn open_info(&mut self, text: String)
        requires
            old(self).wf(),
        ensures
            final(self).wf(),
            final(self)@ == old(self)@.open_info(text@),
    {
        self.info_text = text;
        self.show_info = true;
    }

    /// Closes the info overlay.
    pub fn close_info(&mut self)
        requires
            old(self).wf(),
        ensures
            final(self).wf(),
            final(self)@ == old(self)@.close_info(),
    {
        self.show_info = false;
    }
}

} // verus!
