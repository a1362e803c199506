//! One interactive session: the viewer's state together with the set of
//! containers that have a log source, and what each event of a log source
//! does to the two.

use vstd::prelude::*;
use crate::filter::NameFilter;
use crate::input::{Command, Effect};
use crate::model::{has_id, Entry, Line, Model};
use crate::source::{accepted_name, display_name_of, formatted_line, log_line, Stream};
use crate::state::AppState;
use crate::text::utf8_lossy;
use crate::watch::{WatchList, Watched};

verus! {

/// What a `Session` stands for.
pub struct SessionView {
    pub state: Model,
    pub watched: Watched,
}

/// What a log source reports, and what the keyboard asks for.
pub enum Event {
    /// The runtime lists the container `id`, or says that it has started.
    Seen { id: Seq<char> },
    /// The container `id` was inspected and is taken on under `name`.
    Attached { id: Seq<char>, name: Seq<char> },
    /// The container `id` was inspected and is not taken on.
    Rejected { id: Seq<char> },
    /// A line of the container shown as `name` has come.
    Logged { name: Seq<char>, line: Line },
    /// The log stream of the container `id` has ended.
    Ended { id: Seq<char> },
    /// A key was pressed.
    Pressed { command: Command },
    /// The details asked for have come.
    InfoFetched { text: Seq<char> },
}

/// Every row of `cs` has an id of `ids`.
pub open spec fn ids_within(cs: Seq<Entry>, ids: Set<Seq<char>>) -> bool {
    forall|i: int| 0 <= i < cs.len() ==> ids.contains((#[trigger] cs[i]).id)
}

impl SessionView {
    /// The invariant: that of the state, and a log source for every row.
    pub open spec fn wf(self) -> bool {
        &&& self.state.wf()
        &&& ids_within(self.state.containers, self.watched.ids)
    }

    /// A new session that keeps `max_logs` lines per buffer.
    pub open spec fn init(max_logs: nat) -> SessionView {
        SessionView {
            state: Model::init(max_logs),
            watched: Watched::init(),
        }
    }

    /// The session after `event`. A container that has no log source is not
    /// taken on.
    pub open spec fn step(self, event: Event) -> SessionView {
        match event {
            Event::Seen { id } => SessionView { watched: self.watched.claim(id), ..self },
            Event::Attached { id, name } => if self.watched.ids.contains(id) {
                SessionView { state: self.state.add_container(id, name), ..self }
            } else {
                self
            },
            Event::Rejected { id } => if has_id(self.state.containers, id) {
                self
            } else {
                SessionView { watched: self.watched.release(id), ..self }
            },
            Event::Logged { name, line } => SessionView {
                state: self.state.add_log(name, line),
                ..self
            },
            Event::Ended { id } => SessionView {
                state: self.state.remove_container(id),
                watched: self.watched.release(id),
            },
            Event::Pressed { command } => SessionView { state: self.state.after(command), ..self },
            Event::InfoFetched { text } => SessionView { state: self.state.open_info(text), ..self },
        }
    }

    /// The session after the events `events`, in their order.
    pub open spec fn run(self, events: Seq<Event>) -> SessionView
        decreases events.len(),
    {
        if events.len() == 0 {
            self
        } else {
            self.run(events.drop_last()).step(events.last())
        }
    }
}

/// A command leaves the ids of the rows as they are.
pub proof fn lemma_command_keeps_ids(s: Model, command: Command)
    requires
        s.wf(),
    ensures
        s.after(command).wf(),
        s.after(command).containers.len() == s.containers.len(),
        forall|i: int|
            0 <= i < s.containers.len() ==> (#[trigger] s.after(command).containers[i]).id
                == s.containers[i].id,
{
    match command {
        Command::Next => s.lemma_next_wf(),
        Command::Previous => s.lemma_previous_wf(),
        Command::Toggle => s.lemma_toggle_selected_wf(),
        Command::SelectAll => s.lemma_select_all_wf(),
        Command::DeselectAll => s.lemma_deselect_all_wf(),
        _ => {},
    }
}

/// After a container is taken out, no row has its id, and every row that is
/// left was there before.
pub proof fn lemma_removed_ids(s: Model, id: Seq<char>)
    requires
        s.wf(),
    ensures
        !has_id(s.remove_container(id).containers, id),
        forall|i: int|
            0 <= i < s.remove_container(id).containers.len() ==> has_id(
                s.containers,
                (#[trigger] s.remove_container(id).containers[i]).id,
            ),
{
    let after = s.remove_container(id).containers;
    if has_id(s.containers, id) {
        let cs = s.containers;
        let k = crate::model::index_of_id(cs, id);
        let rest = cs.remove(k);
        assert forall|i: int| 0 <= i < after.len() implies (#[trigger] after[i]).id != id && has_id(
            cs,
            after[i].id,
        ) by {
            let x = if i < k {
                i
            } else {
                i + 1
            };
            assert(rest[i] == cs[x]);
            assert(after[i].id == cs[x].id);
            if x < k {
                assert(cs[x].id != cs[k].id);
            } else {
                assert(cs[k].id != cs[x].id);
            }
        }
    } else {
        assert forall|i: int| 0 <= i < after.len() implies has_id(s.containers, (#[trigger] after[i]).id) by {
            assert(after[i] == s.containers[i]);
        }
    }
}

/// After a container is taken on, every row has its id or was there before.
pub proof fn lemma_added_ids(s: Model, id: Seq<char>, name: Seq<char>)
    ensures
        forall|i: int|
            0 <= i < s.add_container(id, name).containers.len() ==> (#[trigger] s.add_container(
                id,
                name,
            ).containers[i]).id == id || has_id(s.containers, s.add_container(id, name).containers[i].id),
{
    let after = s.add_container(id, name).containers;
    let cs = s.containers;
    crate::model::lemma_slot_for(cs, name);
    let p = crate::model::slot_for(cs, name) as int;
    assert forall|i: int| 0 <= i < after.len() implies (#[trigger] after[i]).id == id || has_id(
        cs,
        after[i].id,
    ) by {
        if has_id(cs, id) {
            assert(after[i] == cs[i]);
        } else if i < p {
            assert(after[i] == cs[i]);
        } else if i > p {
            assert(after[i] == cs[i - 1]);
        }
    }
}

/// Every event keeps the invariant of the session.
pub proof fn lemma_step_wf(s: SessionView, event: Event)
    requires
        s.wf(),
    ensures
        s.step(event).wf(),
{
    let after = s.step(event);
    match event {
        Event::Seen { id } => {},
        Event::Attached { id, name } => {
            if s.watched.ids.contains(id) {
                s.state.lemma_add_container_wf(id, name);
                lemma_added_ids(s.state, id, name);
                assert forall|i: int| 0 <= i < after.state.containers.len() implies after.watched.ids.contains(
                    (#[trigger] after.state.containers[i]).id,
                ) by {
                    let e = after.state.containers[i];
                    if e.id != id {
                        let k = choose|k: int|
                            0 <= k < s.state.containers.len() && (#[trigger] s.state.containers[k]).id
                                == e.id;
                    }
                }
            }
        },
        Event::Rejected { id } => {
            if !has_id(s.state.containers, id) {
                assert forall|i: int| 0 <= i < after.state.containers.len() implies after.watched.ids.contains(
                    (#[trigger] after.state.containers[i]).id,
                ) by {
                    assert(s.state.containers[i].id != id);
                }
            }
        },
        Event::Logged { name, line } => {
            s.state.lemma_add_log_wf(name, line);
        },
        Event::Ended { id } => {
            s.state.lemma_remove_container_wf(id);
            lemma_removed_ids(s.state, id);
            assert forall|i: int| 0 <= i < after.state.containers.len() implies after.watched.ids.contains(
                (#[trigger] after.state.containers[i]).id,
            ) by {
                let e = after.state.containers[i];
                let k = choose|k: int|
                    0 <= k < s.state.containers.len() && (#[trigger] s.state.containers[k]).id == e.id;
                assert(e.id != id);
            }
        },
        Event::Pressed { command } => {
            lemma_command_keeps_ids(s.state, command);
        },
        Event::InfoFetched { text } => {},
    }
}

/// Every sequence of events keeps the invariant of the session.
pub proof fn lemma_session_run_wf(s: SessionView, events: Seq<Event>)
    requires
        s.wf(),
    ensures
        s.run(events).wf(),
    decreases events.len(),
{
    if events.len() > 0 {
        lemma_session_run_wf(s, events.drop_last());
        lemma_step_wf(s.run(events.drop_last()), events.last());
    }
}

/// A container that is inspected and not taken on leaves the viewer's state
/// as it was, and so does one that is seen for the first time.
pub proof fn law_rejected_container_leaves_state(s: SessionView, id: Seq<char>)
    ensures
        s.step(Event::Rejected { id }).state == s.state,
        s.step(Event::Seen { id }).state == s.state,
{
}

/// Whatever happens in a session, the list is in the order of its names, no
/// id has two rows, and every row belongs to a container that has a log
/// source.
pub proof fn law_rows_have_log_sources(max_logs: nat, events: Seq<Event>)
    ensures
        crate::model::sorted_by_name(SessionView::init(max_logs).run(events).state.containers),
        crate::model::distinct_ids(SessionView::init(max_logs).run(events).state.containers),
        ids_within(
            SessionView::init(max_logs).run(events).state.containers,
            SessionView::init(max_logs).run(events).watched.ids,
        ),
{
    Model::lemma_init_wf(max_logs);
    lemma_session_run_wf(SessionView::init(max_logs), events);
}

/// The state of a session and the containers that have a log source.
pub struct Session {
    state: AppState,
    watch: WatchList,
}

impl View for Session {
    type V = SessionView;

    closed spec fn view(&self) -> SessionView {
        SessionView { state: self.state@, watched: self.watch@ }
    }
}

impl Session {
    /// The invariant of the session.
    pub closed spec fn wf(&self) -> bool {
        &&& self.state.wf()
        &&& self.watch.wf()
        &&& self@.wf()
    }

    /// A session that meets the invariant has a view that does.
    pub proof fn lemma_wf_view(&self)
        requires
            self.wf(),
        ensures
            self@.wf(),
    {
    }

    /// A new session that keeps `max_logs` lines per buffer.
    pub fn new(max_logs: usize) -> (session: Session)
        ensures
            session.wf(),
            session@ == SessionView::init(max_logs as nat),
    {
        let session = Session { state: AppState::new(max_logs), watch: WatchList::new() };
        proof {
            Model::lemma_init_wf(max_logs as nat);
        }
        session
    }

    /// The viewer's state.
    pub fn state(&self) -> (state: &AppState)
        requires
            self.wf(),
        ensures
            state.wf(),
            state@ == self@.state,
    {
        &self.state
    }

    /// Whether the container `id` has a log source.
    pub fn is_watched(&self, id: &str) -> (r: bool)
        ensures
            r == self@.watched.ids.contains(id@),
    {
        self.watch.contains(id)
    }

    /// Whether the counters of color indices can still count on.
    pub fn has_room(&self) -> (r: bool)
        ensures
            r == (self@.watched.next_color < usize::MAX && self@.state.color_counter < usize::MAX),
    {
        self.watch.next_color() < usize::MAX && self.state.color_counter() < usize::MAX
    }

    /// The runtime lists the container `id` or says that it has started.
    /// Returns the color index of its log source if it is to get one, `None`
    /// if it has one already.
    pub fn on_seen(&mut self, id: &str) -> (color_index: Option<usize>)
        requires
            old(self).wf(),
            old(self)@.watched.next_color < usize::MAX || old(self)@.watched.ids.contains(id@),
        ensures
            final(self).wf(),
            final(self)@ == old(self)@.step(Event::Seen { id: id@ }),
            color_index == if old(self)@.watched.ids.contains(id@) {
                None
            } else {
                Some(old(self)@.watched.next_color as usize)
            },
    {
        proof {
            lemma_step_wf(self@, Event::Seen { id: id@ });
        }
        self.watch.claim(id)
    }

    /// The container `id` was inspected and the runtime calls it `raw_name`.
    /// Where it has a log source and a name that passes the filter, it is
    /// taken into the list under that name, which is returned. Otherwise its
    /// log source ends here: `None`.
    pub fn on_inspected(&mut self, id: &str, raw_name: Option<&str>, filter: &NameFilter) -> (name:
        Option<String>)
        requires
            old(self).wf(),
            old(self)@.state.color_counter < usize::MAX || has_id(old(self)@.state.containers, id@)
                || !old(self)@.watched.ids.contains(id@) || raw_name is None || !filter.passes(
                display_name_of(raw_name->0@),
            ),
        ensures
            final(self).wf(),
            name is Some <==> old(self)@.watched.ids.contains(id@) && raw_name is Some
                && filter.passes(display_name_of(raw_name->0@)),
            name is None ==> final(self)@.state == old(self)@.state,
            match name {
                Some(n) => n@ == display_name_of(raw_name->0@) && final(self)@ == old(self)@.step(
                    Event::Attached { id: id@, name: n@ },
                ),
                None => final(self)@ == old(self)@.step(Event::Rejected { id: id@ }),
            },
    {
        let named = if self.watch.contains(id) {
            accepted_name(raw_name, filter)
        } else {
            None
        };
        match named {
            Some(shown) => {
                proof {
                    lemma_step_wf(self@, Event::Attached { id: id@, name: shown@ });
                }
                self.state.add_container(id.to_owned(), shown.clone());
                Some(shown)
            },
            None => {
                self.on_rejected(id);
                None
            },
        }
    }

    /// The log source of the container `id` gives up before the container is
    /// taken on: it is no longer counted among the log sources, unless a row
    /// of the list has its id.
    pub fn on_rejected(&mut self, id: &str)
        requires
            old(self).wf(),
        ensures
            final(self).wf(),
            final(self)@ == old(self)@.step(Event::Rejected { id: id@ }),
    {
        proof {
            lemma_step_wf(self@, Event::Rejected { id: id@ });
        }
        if !self.has_row(id) {
            self.watch.release(id);
        }
    }

    /// Whether a row of the list has the id `id`.
    pub fn has_row(&self, id: &str) -> (r: bool)
        ensures
            r == has_id(self@.state.containers, id@),
    {
        let key = id.to_owned();
        let list = self.state.containers();
        let ghost cs = crate::state::entries(list@);
        let mut i: usize = 0;
        while i < list.len()
            invariant
                i <= list@.len(),
                cs == crate::state::entries(list@),
                cs == self@.state.containers,
                key@ == id@,
                forall|k: int| 0 <= k < i ==> (#[trigger] cs[k]).id != key@,
            decreases list@.len() - i,
        {
            assert(cs[i as int] == list@[i as int]@);
            if list[i].id == key {
                assert(cs[i as int].id == id@);
                assert(cs == self@.state.containers);
                return true;
            }
            i += 1;
        }
        false
    }

    /// A chunk of output of the container shown as `name` has come: its
    /// line goes into the buffers.
    pub fn on_chunk(&mut self, name: &str, stream: Stream, payload: &[u8])
        requires
            old(self).wf(),
        ensures
            final(self).wf(),
            final(self)@ == old(self)@.step(
                Event::Logged {
                    name: name@,
                    line: formatted_line(name@, stream, utf8_lossy(payload@)),
                },
            ),
    {
        proof {
            lemma_step_wf(
                self@,
                Event::Logged {
                    name: name@,
                    line: formatted_line(name@, stream, utf8_lossy(payload@)),
                },
            );
        }
        let line = log_line(name, stream, payload);
        self.state.add_log(name, line);
    }

    /// The log stream of the container `id` has ended: its row leaves the
    /// list, and the container has no log source any more.
    pub fn on_ended(&mut self, id: &str)
        requires
            old(self).wf(),
        ensures
            final(self).wf(),
            final(self)@ == old(self)@.step(Event::Ended { id: id@ }),
    {
        proof {
            lemma_step_wf(self@, Event::Ended { id: id@ });
        }
        self.state.remove_container(id);
        self.watch.release(id);
    }

    /// A key was pressed that asks for `command`.
    pub fn on_command(&mut self, command: Command) -> (effect: Effect)
        requires
            old(self).wf(),
        ensures
            final(self).wf(),
            final(self)@ == old(self)@.step(Event::Pressed { command }),
            match effect {
                Effect::Quit => command == Command::Quit,
                Effect::Inspect(id) => old(self)@.state.inspects(command) == Some(id@),
                Effect::Continue => command != Command::Quit && old(self)@.state.inspects(command)
                    is None,
            },
    {
        proof {
            lemma_step_wf(self@, Event::Pressed { command });
        }
        self.state.handle(command)
    }

    /// The details that the info key asked for have come: the overlay opens
    /// on them.
    pub fn on_info(&mut self, text: String)
        requires
            old(self).wf(),
        ensures
            final(self).wf(),
            final(self)@ == old(self)@.step(Event::InfoFetched { text: text@ }),
    {
        proof {
            lemma_step_wf(self@, Event::InfoFetched { text: text@ });
        }
        self.state.open_info(text);
    }
}

} // verus!
