//! What a frame shows, computed from the state and the size of the panes: the
//! width of the container pane, the lines of the log pane cut to the pane's
//! width, the scroll offset that keeps the newest line at the bottom, and the
//! help text.

use vstd::prelude::*;
use crate::model::{all_selected, selected_count, Cursor, Entry};
use crate::palette::{get_color, hue_of, Hue};
use crate::state::{entries, AppState, Focus};
use crate::text::{chars_of, sanitize_chars, sanitized, string_of};
use crate::width::{char_width, columns_of, is_plain};

verus! {

/// The help text while the info overlay is closed.
pub const HELP_SHOW_INFO: &'static str =
    "↑/↓: Navigate | Enter/Space: Toggle | i: Show Info | a: All | n: None | Esc/q: Quit";

/// The help text while the info overlay is open.
pub const HELP_CLOSE_INFO: &'static str =
    "↑/↓: Navigate | Enter/Space: Toggle | i: Close Info | a: All | n: None | Esc/q: Quit";

/// The mark in front of a selected row.
pub const MARK_SELECTED: &'static str = "◉";

/// The mark in front of a row that is not selected.
pub const MARK_UNSELECTED: &'static str = "○";

/// The title of the container list.
pub const TITLE_CONTAINERS: &'static str = "▶ CONTAINERS";

/// The title of the log pane.
pub const TITLE_LOGS: &'static str = "▶ LOGS";

/// The title of the info overlay.
pub const TITLE_INFO: &'static str = "▶ CONTAINER INFO";

/// The "ALL" row on top of the container pane.
#[derive(Debug, Clone, Copy, PartialEq, Eq, Structural)]
pub struct AllRow {
    /// Whether every container is selected.
    pub selected: bool,
    /// Whether the focus is on this row.
    pub focused: bool,
}

/// One row of the container list as it is shown.
#[derive(Debug, Clone, PartialEq, Eq)]
pub struct Row {
    pub selected: bool,
    pub name: String,
    pub hue: Hue,
    pub focused: bool,
}

/// What a `Row` stands for.
pub struct RowView {
    pub selected: bool,
    pub name: Seq<char>,
    pub hue: Hue,
    pub focused: bool,
}

impl View for Row {
    type V = RowView;

    open spec fn view(&self) -> RowView {
        RowView { selected: self.selected, name: self.name@, hue: self.hue, focused: self.focused }
    }
}

/// Row `i` of the list as it is shown: its mark, its name in the color of
/// its color index, and the highlight if the focus is on it.
pub open spec fn row_of(cs: Seq<Entry>, focus: Cursor, i: int) -> RowView {
    RowView {
        selected: cs[i].selected,
        name: cs[i].name,
        hue: hue_of(cs[i].color_index),
        focused: focus == Cursor::Row(i as nat),
    }
}

/// What the right pane shows.
pub enum Pane {
    /// The info overlay with its text.
    Info(String),
    /// The log pane.
    Logs(LogPane),
}

/// One run of text of a rendered line, with the color of a container's name
/// or, with `None`, in the default style.
#[derive(Debug, Clone, PartialEq, Eq)]
pub struct Segment {
    pub text: String,
    pub hue: Option<Hue>,
}

/// What a `Segment` stands for.
pub struct Piece {
    pub text: Seq<char>,
    pub hue: Option<Hue>,
}

impl View for Segment {
    type V = Piece;

    open spec fn view(&self) -> Piece {
        Piece { text: self.text@, hue: self.hue }
    }
}

/// What a sequence of segments stands for.
pub open spec fn pieces(segments: Seq<Segment>) -> Seq<Piece> {
    Seq::new(segments.len(), |i: int| segments[i]@)
}

/// The log pane of one frame: its lines, oldest first, and the number of
/// lines scrolled out at the top.
pub struct LogPane {
    pub lines: Vec<Vec<Segment>>,
    pub scroll: u16,
}

/// The length of a name in bytes, as `str::len` reports it.
pub open spec fn name_bytes(name: Seq<char>) -> usize {
    vstd::utf8::encode_utf8(name).len() as usize
}

/// The greatest length in bytes among the names of the list, 0 for an empty list.
pub open spec fn longest_name(cs: Seq<Entry>) -> nat
    decreases cs.len(),
{
    if cs.len() == 0 {
        0
    } else if name_bytes(cs.last().name) > longest_name(cs.drop_last()) {
        name_bytes(cs.last().name) as nat
    } else {
        longest_name(cs.drop_last())
    }
}

/// The width that the container pane asks for: the longest name, at least
/// 20, and 3 more; never more than 65535.
pub open spec fn name_column_width(cs: Seq<Entry>) -> nat {
    let longest = if longest_name(cs) > 20 {
        longest_name(cs)
    } else {
        20
    };
    if longest + 3 > u16::MAX {
        u16::MAX as nat
    } else {
        longest + 3
    }
}

/// The width of the container pane on a screen `screen_width` wide: what the
/// names ask for, but no more than a third of the screen.
pub open spec fn left_width(cs: Seq<Entry>, screen_width: nat) -> nat {
    if name_column_width(cs) < screen_width / 3 {
        name_column_width(cs)
    } else {
        screen_width / 3
    }
}

/// The columns that a log line may take in a pane `pane_width` wide: the
/// width less 8, but at least 5.
pub open spec fn budget_for(pane_width: nat) -> nat {
    if pane_width - 8 > 5 {
        (pane_width - 8) as nat
    } else {
        5
    }
}

/// The number of lines scrolled out at the top so that the last of
/// `line_count` lines is at the bottom of a pane `pane_height` high, two rows
/// of which are its border; never more than 65535.
pub open spec fn scroll_for(line_count: nat, pane_height: nat) -> nat {
    let rows = if pane_height > 2 {
        (pane_height - 2) as nat
    } else {
        0
    };
    if line_count <= rows {
        0
    } else if line_count - rows > u16::MAX {
        u16::MAX as nat
    } else {
        (line_count - rows) as nat
    }
}

/// The position of the first space of `s`, or the length of `s` if it has none.
pub open spec fn space_index(s: Seq<char>) -> int
    decreases s.len(),
{
    if s.len() == 0 || s[0] == ' ' {
        0
    } else {
        1 + space_index(s.drop_first())
    }
}

/// The color of the first row named `name`, if there is one.
pub open spec fn color_of(cs: Seq<Entry>, name: Seq<char>) -> Option<Hue>
    decreases cs.len(),
{
    if cs.len() == 0 {
        None
    } else if cs[0].name == name {
        Some(hue_of(cs[0].color_index))
    } else {
        color_of(cs.drop_first(), name)
    }
}

/// The columns of the characters of `s`, one by one: a wide glyph counts as
/// two, a glyph without width as none.
pub open spec fn columns_sum(s: Seq<char>) -> nat
    decreases s.len(),
{
    if s.len() == 0 {
        0
    } else {
        columns_of(s[0]) + columns_sum(s.drop_first())
    }
}

/// The characters of `s` from position `i` on that fit: each is taken while
/// the columns used so far and its own are no more than `budget`.
pub open spec fn fitted_from(s: Seq<char>, i: int, used: nat, budget: nat) -> Seq<char>
    decreases s.len() - i,
{
    if i < 0 || i >= s.len() || used + columns_of(s[i]) > budget {
        Seq::empty()
    } else {
        seq![s[i]] + fitted_from(s, i + 1, used + columns_of(s[i]), budget)
    }
}

/// The longest start of `s` that takes no more than `budget` columns.
pub open spec fn fitted(s: Seq<char>, budget: nat) -> Seq<char> {
    fitted_from(s, 0, 0, budget)
}

/// `a - b`, or 0 where `b` is the greater.
pub open spec fn minus(a: nat, b: nat) -> nat {
    if a > b {
        (a - b) as nat
    } else {
        0
    }
}

/// The pieces of a cleaned line before any cut. Where names are shown and
/// the text before the first space is the name of a row: that name in the
/// row's color, and the rest. Where names are not shown: the text behind the
/// first space. Otherwise the whole line.
pub open spec fn split_line(cs: Seq<Entry>, clean: Seq<char>, show_names: bool) -> Seq<Piece> {
    let p = space_index(clean);
    if p >= clean.len() {
        seq![Piece { text: clean, hue: None }]
    } else if !show_names {
        seq![Piece { text: clean.skip(p + 1), hue: None }]
    } else {
        match color_of(cs, clean.take(p)) {
            Some(hue) => seq![
                Piece { text: clean.take(p), hue: Some(hue) },
                Piece { text: clean.skip(p), hue: None },
            ],
            None => seq![Piece { text: clean, hue: None }],
        }
    }
}

/// A cleaned line after the first cut: the pieces of `split_line`, the text
/// behind a name cut to what the name leaves of the width, any other text cut
/// to the width. The name itself is left whole here.
pub open spec fn first_pass(cs: Seq<Entry>, clean: Seq<char>, show_names: bool, max_width: nat) -> Seq<
    Piece,
> {
    let whole = split_line(cs, clean, show_names);
    if whole.len() == 2 {
        seq![
            whole[0],
            Piece {
                text: fitted(whole[1].text, minus(max_width, columns_sum(whole[0].text))),
                hue: whole[1].hue,
            },
        ]
    } else {
        seq![Piece { text: fitted(whole[0].text, max_width), hue: whole[0].hue }]
    }
}

/// The columns of all pieces together.
pub open spec fn total_columns(ps: Seq<Piece>) -> nat
    decreases ps.len(),
{
    if ps.len() == 0 {
        0
    } else {
        columns_sum(ps[0].text) + total_columns(ps.drop_first())
    }
}

/// The pieces from position `i` on that stay: each whole piece while the
/// columns used so far and its own are no more than `max_width`; the first
/// that does not fit is cut to what is left, or dropped if nothing is left,
/// and ends the line.
pub open spec fn clipped_from(ps: Seq<Piece>, i: int, used: nat, max_width: nat) -> Seq<Piece>
    decreases ps.len() - i,
{
    if i < 0 || i >= ps.len() {
        Seq::empty()
    } else if used + columns_sum(ps[i].text) <= max_width {
        seq![ps[i]] + clipped_from(ps, i + 1, used + columns_sum(ps[i].text), max_width)
    } else if max_width > used {
        seq![Piece { text: fitted(ps[i].text, (max_width - used) as nat), hue: ps[i].hue }]
    } else {
        Seq::empty()
    }
}

/// The final cut: a line whose pieces together take more than `max_width`
/// columns is clipped.
pub open spec fn second_pass(ps: Seq<Piece>, max_width: nat) -> Seq<Piece> {
    if total_columns(ps) <= max_width {
        ps
    } else {
        clipped_from(ps, 0, 0, max_width)
    }
}

/// The stored line `line` as the log pane shows it.
pub open spec fn rendered(cs: Seq<Entry>, line: Seq<char>, show_names: bool, max_width: nat) -> Seq<
    Piece,
> {
    second_pass(first_pass(cs, sanitized(line), show_names, max_width), max_width)
}

/// The first space is where no earlier character is a space.
pub proof fn lemma_space_index_is(s: Seq<char>, p: int)
    requires
        0 <= p <= s.len(),
        forall|k: int| 0 <= k < p ==> s[k] != ' ',
        p < s.len() ==> s[p] == ' ',
    ensures
        space_index(s) == p,
    decreases s.len(),
{
    if s.len() == 0 || s[0] == ' ' {
    } else {
        let rest = s.drop_first();
        assert forall|k: int| 0 <= k < p - 1 implies rest[k] != ' ' by {
            assert(rest[k] == s[k + 1]);
        }
        lemma_space_index_is(rest, p - 1);
    }
}

/// The color of a name is that of the first row with the name.
pub proof fn lemma_color_of_first(cs: Seq<Entry>, name: Seq<char>, p: int)
    requires
        0 <= p <= cs.len(),
        forall|k: int| 0 <= k < p ==> (#[trigger] cs[k]).name != name,
        p < cs.len() ==> cs[p].name == name,
    ensures
        color_of(cs, name) == if p < cs.len() {
            Some(hue_of(cs[p].color_index))
        } else {
            None
        },
    decreases cs.len(),
{
    if cs.len() == 0 {
    } else if cs[0].name == name {
        if p > 0 {
            assert(cs[0].name != name);
        }
    } else {
        let rest = cs.drop_first();
        assert forall|k: int| 0 <= k < p - 1 implies (#[trigger] rest[k]).name != name by {
            assert(rest[k] == cs[k + 1]);
        }
        if p < cs.len() {
            assert(rest[p - 1] == cs[p]);
        }
        lemma_color_of_first(rest, name, p - 1);
    }
}

/// Text of the characters U+0020 to U+007E takes one column for each.
pub proof fn law_plain_text_columns(s: Seq<char>)
    requires
        forall|i: int| 0 <= i < s.len() ==> is_plain(#[trigger] s[i]),
    ensures
        columns_sum(s) == s.len(),
    decreases s.len(),
{
    if s.len() > 0 {
        let rest = s.drop_first();
        assert forall|i: int| 0 <= i < rest.len() implies is_plain(#[trigger] rest[i]) by {
            assert(rest[i] == s[i + 1]);
        }
        law_plain_text_columns(rest);
    }
}

/// What fits is a start of the text.
pub proof fn law_fitted_is_prefix(s: Seq<char>, i: int, used: nat, budget: nat)
    requires
        0 <= i <= s.len(),
    ensures
        fitted_from(s, i, used, budget).len() <= s.len() - i,
        fitted_from(s, i, used, budget) == s.subrange(
            i,
            i + fitted_from(s, i, used, budget).len(),
        ),
    decreases s.len() - i,
{
    let out = fitted_from(s, i, used, budget);
    if i >= s.len() || used + columns_of(s[i]) > budget {
        assert(out =~= s.subrange(i, i));
    } else {
        law_fitted_is_prefix(s, i + 1, used + columns_of(s[i]), budget);
        assert(out =~= s.subrange(i, i + out.len()));
    }
}

/// What fits takes, glyph by glyph, no more columns than the budget leaves.
pub proof fn law_fitted_within_budget(s: Seq<char>, i: int, used: nat, budget: nat)
    requires
        0 <= i <= s.len(),
        used <= budget,
    ensures
        used + columns_sum(fitted_from(s, i, used, budget)) <= budget,
    decreases s.len() - i,
{
    let out = fitted_from(s, i, used, budget);
    if i >= s.len() || used + columns_of(s[i]) > budget {
    } else {
        let next = used + columns_of(s[i]);
        law_fitted_within_budget(s, i + 1, next, budget);
        assert(out.drop_first() =~= fitted_from(s, i + 1, next, budget));
        assert(out[0] == s[i]);
    }
}

/// Text that takes no more columns than the budget leaves fits whole.
pub proof fn law_fitted_keeps_what_fits(s: Seq<char>, i: int, used: nat, budget: nat)
    requires
        0 <= i <= s.len(),
        used + columns_sum(s.skip(i)) <= budget,
    ensures
        fitted_from(s, i, used, budget) == s.skip(i),
    decreases s.len() - i,
{
    if i >= s.len() {
        assert(s.skip(i) =~= Seq::<char>::empty());
    } else {
        let rest = s.skip(i);
        assert(rest[0] == s[i]);
        assert(rest.drop_first() =~= s.skip(i + 1));
        law_fitted_keeps_what_fits(s, i + 1, used + columns_of(s[i]), budget);
        assert(rest =~= seq![s[i]] + s.skip(i + 1));
    }
}

/// The columns of one piece and of two.
pub proof fn lemma_total_columns_small(a: Piece, b: Piece)
    ensures
        total_columns(seq![a]) == columns_sum(a.text),
        total_columns(seq![a, b]) == columns_sum(a.text) + columns_sum(b.text),
{
    assert(seq![a].drop_first() =~= Seq::<Piece>::empty());
    assert(seq![a, b].drop_first() =~= seq![b]);
    assert(total_columns(seq![a]) == columns_sum(a.text) + total_columns(seq![a].drop_first()));
    assert(total_columns(seq![b]) == columns_sum(b.text) + total_columns(seq![b].drop_first())) by {
        assert(seq![b].drop_first() =~= Seq::<Piece>::empty());
    }
    assert(total_columns(seq![a, b]) == columns_sum(a.text) + total_columns(
        seq![a, b].drop_first(),
    ));
}

/// What is left after clipping takes no more columns than the width leaves.
pub proof fn law_clipped_within_width(ps: Seq<Piece>, i: int, used: nat, max_width: nat)
    requires
        0 <= i <= ps.len(),
        used <= max_width,
    ensures
        used + total_columns(clipped_from(ps, i, used, max_width)) <= max_width,
    decreases ps.len() - i,
{
    let out = clipped_from(ps, i, used, max_width);
    if i >= ps.len() {
    } else if used + columns_sum(ps[i].text) <= max_width {
        let next = used + columns_sum(ps[i].text);
        law_clipped_within_width(ps, i + 1, next, max_width);
        assert(out.drop_first() =~= clipped_from(ps, i + 1, next, max_width));
        assert(out[0] == ps[i]);
    } else if max_width > used {
        let cut = Piece { text: fitted(ps[i].text, (max_width - used) as nat), hue: ps[i].hue };
        law_fitted_within_budget(ps[i].text, 0, 0, (max_width - used) as nat);
        lemma_total_columns_small(cut, cut);
    } else {
    }
}

/// Every rendered line takes no more than `max_width` columns, a wide glyph
/// counted as two and a glyph without width as none.
pub proof fn law_rendered_within_width(
    cs: Seq<Entry>,
    line: Seq<char>,
    show_names: bool,
    max_width: nat,
)
    ensures
        total_columns(rendered(cs, line, show_names, max_width)) <= max_width,
{
    let first = first_pass(cs, sanitized(line), show_names, max_width);
    if total_columns(first) > max_width {
        law_clipped_within_width(first, 0, 0, max_width);
    }
}

/// A line that takes no more than `max_width` columns is shown in full.
pub proof fn law_line_that_fits_is_whole(
    cs: Seq<Entry>,
    line: Seq<char>,
    show_names: bool,
    max_width: nat,
)
    requires
        total_columns(split_line(cs, sanitized(line), show_names)) <= max_width,
    ensures
        rendered(cs, line, show_names, max_width) == split_line(cs, sanitized(line), show_names),
{
    let whole = split_line(cs, sanitized(line), show_names);
    let first = first_pass(cs, sanitized(line), show_names, max_width);
    if whole.len() == 2 {
        lemma_total_columns_small(whole[0], whole[1]);
        assert(whole =~= seq![whole[0], whole[1]]);
        let name_columns = columns_sum(whole[0].text);
        assert(whole[1].text.skip(0) =~= whole[1].text);
        law_fitted_keeps_what_fits(whole[1].text, 0, 0, minus(max_width, name_columns));
        assert(first =~= whole);
    } else {
        assert(whole.len() == 1);
        lemma_total_columns_small(whole[0], whole[0]);
        assert(whole =~= seq![whole[0]]);
        assert(whole[0].text.skip(0) =~= whole[0].text);
        law_fitted_keeps_what_fits(whole[0].text, 0, 0, max_width);
        assert(first =~= whole);
    }
}

/// The first space lies within the text or at its end.
pub proof fn lemma_space_index_bounds(s: Seq<char>)
    ensures
        0 <= space_index(s) <= s.len(),
    decreases s.len(),
{
    if s.len() == 0 || s[0] == ' ' {
    } else {
        lemma_space_index_bounds(s.drop_first());
    }
}

/// A line of the characters U+0020 to U+007E that is no longer than
/// `max_width` is shown in full, as `split_line` parts it.
pub proof fn law_plain_line_is_whole(
    cs: Seq<Entry>,
    line: Seq<char>,
    show_names: bool,
    max_width: nat,
)
    requires
        forall|i: int| 0 <= i < line.len() ==> is_plain(#[trigger] line[i]),
        line.len() <= max_width,
    ensures
        sanitized(line) == line,
        rendered(cs, line, show_names, max_width) == split_line(cs, line, show_names),
{
    assert forall|i: int| 0 <= i < line.len() implies !crate::text::char_is_control(
        #[trigger] line[i],
    ) by {
        assert(is_plain(line[i]));
    }
    crate::text::law_sanitized_keeps_clean_text(line);
    lemma_space_index_bounds(line);
    let whole = split_line(cs, line, show_names);
    let p = space_index(line);
    assert forall|k: int, i: int| 0 <= k < whole.len() && 0 <= i < whole[k].text.len() implies is_plain(
        #[trigger] whole[k].text[i],
    ) by {
        let text = whole[k].text;
        if text == line {
        } else if text == line.take(p) {
            assert(text[i] == line[i]);
        } else if text == line.skip(p) {
            assert(text[i] == line[i + p]);
        } else {
            assert(text == line.skip(p + 1));
            assert(text[i] == line[i + p + 1]);
        }
    }
    if whole.len() == 2 {
        law_plain_text_columns(whole[0].text);
        law_plain_text_columns(whole[1].text);
        lemma_total_columns_small(whole[0], whole[1]);
        assert(whole =~= seq![whole[0], whole[1]]);
    } else {
        law_plain_text_columns(whole[0].text);
        lemma_total_columns_small(whole[0], whole[0]);
        assert(whole =~= seq![whole[0]]);
    }
    law_line_that_fits_is_whole(cs, line, show_names, max_width);
}

/// The columns that `c` adds to a line.
fn width_of(c: char) -> (w: usize)
    ensures
        w == columns_of(c),
{
    match char_width(c) {
        Some(w) => w,
        None => 0,
    }
}

/// The characters of `v` from `from` up to `to`.
fn slice(v: &Vec<char>, from: usize, to: usize) -> (out: Vec<char>)
    requires
        from <= to <= v@.len(),
    ensures
        out@ == v@.subrange(from as int, to as int),
{
    let mut out: Vec<char> = Vec::new();
    let mut i: usize = from;
    while i < to
        invariant
            from <= i <= to <= v@.len(),
            out@ == v@.subrange(from as int, i as int),
        decreases to - i,
    {
        out.push(v[i]);
        i += 1;
        assert(out@ =~= v@.subrange(from as int, i as int));
    }
    out
}

/// The position of the first space of `v`, or its length.
fn find_space(v: &Vec<char>) -> (p: usize)
    ensures
        p == space_index(v@),
        p <= v@.len(),
{
    let mut i: usize = 0;
    while i < v.len() && v[i] != ' '
        invariant
            i <= v@.len(),
            forall|k: int| 0 <= k < i ==> v@[k] != ' ',
        decreases v@.len() - i,
    {
        i += 1;
    }
    proof {
        lemma_space_index_is(v@, i as int);
    }
    i
}

/// The columns that `v` takes, where they are no more than `budget`.
pub fn measure(v: &Vec<char>, budget: usize) -> (columns: Option<usize>)
    ensures
        match columns {
            Some(w) => w == columns_sum(v@) && w <= budget,
            None => columns_sum(v@) > budget,
        },
{
    let mut used: usize = 0;
    let mut i: usize = 0;
    assert(v@.skip(0) =~= v@);
    while i < v.len()
        invariant
            i <= v@.len(),
            used <= budget,
            used + columns_sum(v@.skip(i as int)) == columns_sum(v@),
        decreases v@.len() - i,
    {
        let ghost rest = v@.skip(i as int);
        assert(rest[0] == v@[i as int]);
        assert(rest.drop_first() =~= v@.skip(i + 1));
        let w = width_of(v[i]);
        if w > budget - used {
            return None;
        }
        used = used + w;
        i += 1;
    }
    assert(v@.skip(v@.len() as int) =~= Seq::<char>::empty());
    Some(used)
}

/// Cuts `v` to the longest start that takes no more than `budget` columns.
pub fn fit(v: &Vec<char>, budget: usize) -> (out: Vec<char>)
    ensures
        out@ == fitted(v@, budget as nat),
{
    let mut out: Vec<char> = Vec::new();
    let mut used: usize = 0;
    let mut i: usize = 0;
    let mut open = true;
    while open && i < v.len()
        invariant
            i <= v@.len(),
            used <= budget,
            open ==> out@ + fitted_from(v@, i as int, used as nat, budget as nat) == fitted(
                v@,
                budget as nat,
            ),
            !open ==> out@ == fitted(v@, budget as nat),
        decreases v@.len() - i + if open {
            1nat
        } else {
            0nat
        },
    {
        let w = width_of(v[i]);
        let ghost before = out@;
        if w > budget - used {
            open = false;
            assert(before + Seq::<char>::empty() =~= before);
        } else {
            out.push(v[i]);
            used = used + w;
            i += 1;
            assert(out@ + fitted_from(v@, i as int, used as nat, budget as nat) =~= before + (
            seq![v@[i - 1]] + fitted_from(v@, i as int, used as nat, budget as nat)));
        }
    }
    assert(out@ + Seq::<char>::empty() =~= out@);
    out
}

/// Cuts a string to the longest start that takes no more than `budget` columns.
pub fn fit_text(text: &str, budget: usize) -> (out: String)
    ensures
        out@ == fitted(text@, budget as nat),
{
    let v = chars_of(text);
    let cut = fit(&v, budget);
    string_of(&cut)
}

/// The pieces of `ps` from position `i` on.
proof fn lemma_total_columns_skip(ps: Seq<Piece>, i: int)
    requires
        0 <= i < ps.len(),
    ensures
        total_columns(ps.skip(i)) == columns_sum(ps[i].text) + total_columns(ps.skip(i + 1)),
{
    let rest = ps.skip(i);
    assert(rest[0] == ps[i]);
    assert(rest.drop_first() =~= ps.skip(i + 1));
}

/// Whether the pieces together take no more than `max_width` columns.
fn line_fits(line: &Vec<Segment>, max_width: usize) -> (fits: bool)
    ensures
        fits == (total_columns(pieces(line@)) <= max_width),
{
    let ghost ps = pieces(line@);
    let mut used: usize = 0;
    let mut i: usize = 0;
    assert(ps.skip(0) =~= ps);
    while i < line.len()
        invariant
            i <= line@.len(),
            ps == pieces(line@),
            used <= max_width,
            used + total_columns(ps.skip(i as int)) == total_columns(ps),
        decreases line@.len() - i,
    {
        proof {
            lemma_total_columns_skip(ps, i as int);
            assert(ps[i as int].text == line@[i as int].text@);
        }
        match measure(&chars_of(line[i].text.as_str()), max_width - used) {
            Some(w) => {
                used = used + w;
            },
            None => {
                return false;
            },
        }
        i += 1;
    }
    assert(ps.skip(line@.len() as int) =~= Seq::<Piece>::empty());
    true
}

/// The final cut of a line; see `second_pass`.
pub fn clip(line: Vec<Segment>, max_width: usize) -> (out: Vec<Segment>)
    ensures
        pieces(out@) == second_pass(pieces(line@), max_width as nat),
{
    if line_fits(&line, max_width) {
        return line;
    }
    let ghost ps = pieces(line@);
    let mut out: Vec<Segment> = Vec::new();
    let mut used: usize = 0;
    let mut i: usize = 0;
    let mut open = true;
    assert(pieces(out@) =~= Seq::<Piece>::empty());
    assert(pieces(out@) + clipped_from(ps, 0, 0, max_width as nat) =~= clipped_from(
        ps,
        0,
        0,
        max_width as nat,
    ));
    while open && i < line.len()
        invariant
            i <= line@.len(),
            used <= max_width,
            ps == pieces(line@),
            open ==> pieces(out@) + clipped_from(ps, i as int, used as nat, max_width as nat)
                == clipped_from(ps, 0, 0, max_width as nat),
            !open ==> pieces(out@) == clipped_from(ps, 0, 0, max_width as nat),
        decreases line@.len() - i + if open {
            1nat
        } else {
            0nat
        },
    {
        let ghost before = pieces(out@);
        let ghost piece = ps[i as int];
        assert(piece == line@[i as int]@);
        let glyphs = chars_of(line[i].text.as_str());
        match measure(&glyphs, max_width - used) {
            Some(w) => {
                out.push(Segment { text: line[i].text.clone(), hue: line[i].hue });
                used = used + w;
                i += 1;
                assert(pieces(out@) =~= before.push(piece));
                assert(pieces(out@) + clipped_from(ps, i as int, used as nat, max_width as nat)
                    =~= before + (seq![piece] + clipped_from(
                    ps,
                    i as int,
                    used as nat,
                    max_width as nat,
                )));
            },
            None => {
                if max_width > used {
                    let text = string_of(&fit(&glyphs, max_width - used));
                    out.push(Segment { text, hue: line[i].hue });
                    assert(pieces(out@) =~= before + seq![
                        Piece {
                            text: fitted(piece.text, (max_width - used) as nat),
                            hue: piece.hue,
                        },
                    ]);
                } else {
                    assert(pieces(out@) =~= before + Seq::<Piece>::empty());
                }
                open = false;
            },
        }
    }
    assert(pieces(out@) + Seq::<Piece>::empty() =~= pieces(out@));
    out
}

impl AppState {
    /// The color of the first container named `container_name`, if there is one.
    pub fn get_container_color(&self, container_name: &str) -> (hue: Option<Hue>)
        ensures
            hue == color_of(self@.containers, container_name@),
    {
        let key = container_name.to_owned();
        let list = self.containers();
        let ghost cs = entries(list@);
        let mut i: usize = 0;
        while i < list.len()
            invariant
                i <= list@.len(),
                cs == entries(list@),
                cs == self@.containers,
                key@ == container_name@,
                forall|k: int| 0 <= k < i ==> (#[trigger] cs[k]).name != key@,
            decreases list@.len() - i,
        {
            assert(cs[i as int] == list@[i as int]@);
            if list[i].name == key {
                proof {
                    lemma_color_of_first(cs, key@, i as int);
                }
                return Some(get_color(list[i].color_index));
            }
            i += 1;
        }
        proof {
            lemma_color_of_first(cs, key@, i as int);
        }
        None
    }

    /// The "ALL" row: marked if every container is selected, highlighted if
    /// the focus is on it.
    pub fn all_row(&self) -> (row: AllRow)
        ensures
            row.selected == all_selected(self@.containers),
            row.focused == (self@.focus is All),
    {
        AllRow { selected: self.all_selected(), focused: self.select_all_focused() }
    }

    /// The rows of the container list, in the order of the list.
    pub fn rows(&self) -> (rows: Vec<Row>)
        ensures
            rows@.len() == self@.containers.len(),
            forall|i: int|
                0 <= i < rows@.len() ==> (#[trigger] rows@[i])@ == row_of(
                    self@.containers,
                    self@.focus,
                    i,
                ),
    {
        let list = self.containers();
        let focus = self.focus();
        let ghost cs = entries(list@);
        let mut rows: Vec<Row> = Vec::new();
        let mut i: usize = 0;
        while i < list.len()
            invariant
                i <= list@.len(),
                cs == entries(list@),
                cs == self@.containers,
                focus@ == self@.focus,
                rows@.len() == i,
                forall|k: int| 0 <= k < i ==> (#[trigger] rows@[k])@ == row_of(cs, focus@, k),
            decreases list@.len() - i,
        {
            assert(cs[i as int] == list@[i as int]@);
            let focused = match focus {
                Focus::All => false,
                Focus::Row(at) => at == i,
            };
            rows.push(
                Row {
                    selected: list[i].selected,
                    name: list[i].name.clone(),
                    hue: get_color(list[i].color_index),
                    focused,
                },
            );
            i += 1;
        }
        rows
    }

    /// What the right pane shows in a pane `pane_width` wide and
    /// `pane_height` high: the info text while the overlay is open, the log
    /// pane otherwise.
    pub fn right_pane(&self, pane_width: u16, pane_height: u16) -> (pane: Pane)
        ensures
            match pane {
                Pane::Info(text) => self@.show_info && text@ == self@.info_text,
                Pane::Logs(logs) => !self@.show_info && logs.lines@.len() == self@.logs.len()
                    && logs.scroll == scroll_for(self@.logs.len(), pane_height as nat)
                    && forall|i: int|
                    0 <= i < self@.logs.len() ==> pieces((#[trigger] logs.lines@[i])@) == rendered(
                        self@.containers,
                        self@.logs[i],
                        selected_count(self@.containers) != 1,
                        budget_for(pane_width as nat),
                    ),
            },
    {
        if self.show_info() {
            Pane::Info(self.info_text().clone())
        } else {
            Pane::Logs(self.render_logs(pane_width, pane_height))
        }
    }

    /// The width that the container pane asks for: the longest name in
    /// bytes, at least 20, and 3 more.
    pub fn max_container_name_width(&self) -> (width: u16)
        ensures
            width == name_column_width(self@.containers),
    {
        let list = self.containers();
        let ghost cs = entries(list@);
        let mut longest: usize = 0;
        let mut i: usize = 0;
        while i < list.len()
            invariant
                i <= list@.len(),
                cs == entries(list@),
                longest == longest_name(cs.take(i as int)),
            decreases list@.len() - i,
        {
            proof {
                let upto = cs.take(i + 1);
                assert(upto.drop_last() =~= cs.take(i as int));
                assert(upto.last() == list@[i as int]@);
            }
            let n = list[i].name.as_str().len();
            if n > longest {
                longest = n;
            }
            i += 1;
        }
        assert(cs.take(list@.len() as int) =~= cs);
        if longest < 20 {
            longest = 20;
        }
        if longest > 65532 {
            65535
        } else {
            (longest + 3) as u16
        }
    }

    /// The width of the container pane on a screen `screen_width` wide.
    pub fn left_pane_width(&self, screen_width: u16) -> (width: u16)
        ensures
            width == left_width(self@.containers, screen_width as nat),
    {
        let wanted = self.max_container_name_width();
        let third = screen_width / 3;
        if wanted < third {
            wanted
        } else {
            third
        }
    }

    /// The stored line `line` as the log pane shows it, in no more than
    /// `max_width` columns, with or without the container's name in front.
    pub fn render_line(&self, line: &str, show_names: bool, max_width: usize) -> (out: Vec<Segment>)
        ensures
            pieces(out@) == rendered(self@.containers, line@, show_names, max_width as nat),
            total_columns(pieces(out@)) <= max_width,
    {
        proof {
            law_rendered_within_width(self@.containers, line@, show_names, max_width as nat);
        }
        let raw = chars_of(line);
        let clean = sanitize_chars(&raw);
        let p = find_space(&clean);
        let mut first: Vec<Segment> = Vec::new();
        let ghost cs = self@.containers;
        if p >= clean.len() {
            let text = string_of(&fit(&clean, max_width));
            first.push(Segment { text, hue: None });
        } else if !show_names {
            let rest = slice(&clean, p + 1, clean.len());
            let text = string_of(&fit(&rest, max_width));
            first.push(Segment { text, hue: None });
        } else {
            let name_glyphs = slice(&clean, 0, p);
            let name = string_of(&name_glyphs);
            match self.get_container_color(name.as_str()) {
                Some(hue) => {
                    let rest = slice(&clean, p, clean.len());
                    let remaining: usize = match measure(&name_glyphs, max_width) {
                        Some(name_width) => max_width - name_width,
                        None => 0,
                    };
                    let text = string_of(&fit(&rest, remaining));
                    first.push(Segment { text: name, hue: Some(hue) });
                    first.push(Segment { text, hue: None });
                },
                None => {
                    let text = string_of(&fit(&clean, max_width));
                    first.push(Segment { text, hue: None });
                },
            }
        }
        assert(pieces(first@) =~= first_pass(cs, clean@, show_names, max_width as nat));
        clip(first, max_width)
    }

    /// The log pane for a pane `pane_width` wide and `pane_height` high:
    /// every line of the merged buffer as `render_line` gives it, the names
    /// shown unless exactly one container is selected. No line takes more
    /// columns than the pane's budget.
    pub fn render_logs(&self, pane_width: u16, pane_height: u16) -> (pane: LogPane)
        ensures
            pane.lines@.len() == self@.logs.len(),
            forall|i: int|
                0 <= i < self@.logs.len() ==> total_columns(pieces((#[trigger] pane.lines@[i])@))
                    <= budget_for(pane_width as nat),
            forall|i: int|
                0 <= i < self@.logs.len() ==> pieces((#[trigger] pane.lines@[i])@) == rendered(
                    self@.containers,
                    self@.logs[i],
                    selected_count(self@.containers) != 1,
                    budget_for(pane_width as nat),
                ),
            pane.scroll == scroll_for(self@.logs.len(), pane_height as nat),
    {
        let show_names = self.selected_count() != 1;
        let max_width = line_budget(pane_width);
        let count = self.log_count();
        let mut lines: Vec<Vec<Segment>> = Vec::new();
        let mut i: usize = 0;
        while i < count
            invariant
                i <= count,
                count == self@.logs.len(),
                lines@.len() == i,
                show_names == (selected_count(self@.containers) != 1),
                max_width == budget_for(pane_width as nat),
                forall|k: int|
                    0 <= k < i ==> pieces((#[trigger] lines@[k])@) == rendered(
                        self@.containers,
                        self@.logs[k],
                        show_names,
                        max_width as nat,
                    ),
                forall|k: int|
                    0 <= k < i ==> total_columns(pieces((#[trigger] lines@[k])@)) <= max_width,
            decreases count - i,
        {
            let line = self.render_line(self.log_at(i).as_str(), show_names, max_width);
            lines.push(line);
            i += 1;
        }
        LogPane { lines, scroll: scroll_offset(count, pane_height) }
    }
}

/// The columns that a log line may take in a pane `pane_width` wide: the
/// width less 8, but at least 5.
pub fn line_budget(pane_width: u16) -> (budget: usize)
    ensures
        budget == budget_for(pane_width as nat),
        budget >= 5,
{
    if pane_width > 13 {
        (pane_width - 8) as usize
    } else {
        5
    }
}

/// The number of lines to scroll so that the newest of `line_count` lines is
/// at the bottom of a pane `pane_height` high.
pub fn scroll_offset(line_count: usize, pane_height: u16) -> (offset: u16)
    ensures
        offset == scroll_for(line_count as nat, pane_height as nat),
{
    let rows: usize = if pane_height > 2 {
        (pane_height - 2) as usize
    } else {
        0
    };
    if line_count <= rows {
        0
    } else if line_count - rows > 65535 {
        65535
    } else {
        (line_count - rows) as u16
    }
}

/// The mark in front of a row.
pub fn checkbox(selected: bool) -> (mark: &'static str)
    ensures
        mark@ == if selected {
            MARK_SELECTED@
        } else {
            MARK_UNSELECTED@
        },
{
    if selected {
        MARK_SELECTED
    } else {
        MARK_UNSELECTED
    }
}

/// The text of the help line, which names the key `i` by what it does next.
pub fn help_text(show_info: bool) -> (text: &'static str)
    ensures
        text@ == if show_info {
            HELP_CLOSE_INFO@
        } else {
            HELP_SHOW_INFO@
        },
{
    if show_info {
        HELP_CLOSE_INFO
    } else {
        HELP_SHOW_INFO
    }
}

} // verus!
