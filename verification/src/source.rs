//! What a log source decides: the name under which a container is shown,
//! whether the filter lets it pass, the stored form of each line, the options of
//! a log stream, and which runtime events announce a new container.

use vstd::prelude::*;
use vstd::string::StringExecFns;
use crate::filter::NameFilter;
use vstd::utf8::encode_utf8;
use crate::text::{
    chars_of, decode_lossy, law_encoded_text_is_read_back, string_of, trim_end_chars, trimmed_end,
    utf8_lossy,
};

verus! {

/// The mark in front of a "started watching" notice.
pub const STARTED_MARK: &'static str = "✓";

/// The mark in front of a "stopped" notice.
pub const STOPPED_MARK: &'static str = "✗";

/// The stream that a chunk of output came from.
#[derive(Debug, Clone, Copy, PartialEq, Eq, Structural)]
pub enum Stream {
    StdIn,
    StdOut,
    StdErr,
}

/// The options of one log stream.
#[derive(Debug, Clone, Copy, PartialEq, Eq, Structural)]
pub struct LogOptions {
    pub follow: bool,
    pub tail: usize,
    pub stdout: bool,
    pub stderr: bool,
    pub timestamps: bool,
}

/// The letter that stands for a stream in a stored line.
pub open spec fn descriptor_of(stream: Stream) -> char {
    match stream {
        Stream::StdIn => 'i',
        Stream::StdOut => 'o',
        Stream::StdErr => 'e',
    }
}

/// The name under which a container is shown: the runtime's name without
/// one leading `/`.
pub open spec fn display_name_of(raw: Seq<char>) -> Seq<char> {
    if raw.len() > 0 && raw[0] == '/' {
        raw.drop_first()
    } else {
        raw
    }
}

/// The stored form of a line: the name, a space, the stream's letter, a
/// colon, a space, and the text without the white space at its end.
pub open spec fn formatted_line(name: Seq<char>, stream: Stream, text: Seq<char>) -> Seq<char> {
    name + seq![' ', descriptor_of(stream), ':', ' '] + trimmed_end(text)
}

/// Whether an event of the kind `kind` with the action `action` says that a
/// container has started.
pub open spec fn is_start_event(kind: Option<Seq<char>>, action: Option<Seq<char>>) -> bool {
    kind == Some("container"@) && action == Some("start"@)
}

/// The letter that stands for `stream` in a stored line.
pub fn descriptor(stream: Stream) -> (letter: char)
    ensures
        letter == descriptor_of(stream),
{
    match stream {
        Stream::StdIn => 'i',
        Stream::StdOut => 'o',
        Stream::StdErr => 'e',
    }
}

/// The name under which the container that the runtime calls `raw` is shown.
pub fn display_name(raw: &str) -> (name: String)
    ensures
        name@ == display_name_of(raw@),
{
    let v = chars_of(raw);
    if v.len() > 0 && v[0] == '/' {
        let mut rest: Vec<char> = Vec::new();
        let mut i: usize = 1;
        while i < v.len()
            invariant
                1 <= i <= v@.len(),
                rest@ == v@.subrange(1, i as int),
            decreases v@.len() - i,
        {
            rest.push(v[i]);
            i += 1;
            assert(rest@ =~= v@.subrange(1, i as int));
        }
        assert(rest@ =~= v@.drop_first());
        string_of(&rest)
    } else {
        string_of(&v)
    }
}

/// The name under which a container is taken on, or `None` where it is not:
/// a container without a name, or one whose shown name the filter does not
/// let pass.
pub fn accepted_name(raw_name: Option<&str>, filter: &NameFilter) -> (name: Option<String>)
    ensures
        match raw_name {
            Some(raw) => if filter.passes(display_name_of(raw@)) {
                name matches Some(n) && n@ == display_name_of(raw@)
            } else {
                name is None
            },
            None => name is None,
        },
{
    match raw_name {
        Some(raw) => {
            let shown = display_name(raw);
            if filter.accepts(shown.as_str()) {
                Some(shown)
            } else {
                None
            }
        },
        None => None,
    }
}

/// The stored form of the line `text` of the container shown as `name`.
pub fn format_line(name: &str, stream: Stream, text: &str) -> (line: String)
    ensures
        line@ == formatted_line(name@, stream, text@),
{
    let mut out = chars_of(name);
    let ghost start = out@;
    out.push(' ');
    out.push(descriptor(stream));
    out.push(':');
    out.push(' ');
    assert(out@ =~= start + seq![' ', descriptor_of(stream), ':', ' ']);
    let ghost head = out@;
    let body = trim_end_chars(&chars_of(text));
    let mut i: usize = 0;
    while i < body.len()
        invariant
            i <= body@.len(),
            out@ == head + body@.take(i as int),
        decreases body@.len() - i,
    {
        out.push(body[i]);
        i += 1;
        assert(out@ =~= head + body@.take(i as int));
    }
    assert(body@.take(body@.len() as int) =~= body@);
    string_of(&out)
}

/// The stored form of a chunk of output: its bytes read as UTF-8, with a
/// replacement character for what is not, and formatted as `format_line` does.
pub fn log_line(name: &str, stream: Stream, payload: &[u8]) -> (line: String)
    ensures
        line@ == formatted_line(name@, stream, utf8_lossy(payload@)),
{
    let text = decode_lossy(payload);
    format_line(name, stream, text.as_str())
}

/// The notice that a container is now watched: `mark` and `name` as given,
/// which may carry colors.
pub fn started_notice(mark: &str, name: &str) -> (notice: String)
    ensures
        notice@ == ">>> "@ + mark@ + " Started watching container "@ + name@,
{
    let mut notice = String::from_str(">>> ");
    notice.append(mark);
    notice.append(" Started watching container ");
    notice.append(name);
    notice
}

/// The notice that a followed container has stopped.
pub fn stopped_notice(mark: &str, name: &str) -> (notice: String)
    ensures
        notice@ == ">>> "@ + mark@ + " Container "@ + name@ + " stopped"@,
{
    let mut notice = String::from_str(">>> ");
    notice.append(mark);
    notice.append(" Container ");
    notice.append(name);
    notice.append(" stopped");
    notice
}

/// The options of a log stream in plain output: the last `last_n_lines`
/// lines, each of the two output streams unless it is switched off, no
/// timestamps.
pub fn dump_options(follow: bool, last_n_lines: usize, no_stdout: bool, no_stderr: bool) -> (options:
    LogOptions)
    ensures
        options == (LogOptions {
            follow,
            tail: last_n_lines,
            stdout: !no_stdout,
            stderr: !no_stderr,
            timestamps: false,
        }),
{
    LogOptions {
        follow,
        tail: last_n_lines,
        stdout: !no_stdout,
        stderr: !no_stderr,
        timestamps: false,
    }
}

/// The options of a log stream in the interactive view: followed, the last
/// `last_n_lines` lines, both output streams, no timestamps.
pub fn tui_options(last_n_lines: usize) -> (options: LogOptions)
    ensures
        options == (LogOptions {
            follow: true,
            tail: last_n_lines,
            stdout: true,
            stderr: true,
            timestamps: false,
        }),
{
    LogOptions { follow: true, tail: last_n_lines, stdout: true, stderr: true, timestamps: false }
}

/// The number of lines that each buffer of the interactive view keeps: ten
/// times the number of lines asked for at the start.
pub fn tui_max_logs(last_n_lines: usize) -> (max_logs: usize)
    requires
        last_n_lines * 10 <= usize::MAX,
    ensures
        max_logs == last_n_lines * 10,
{
    last_n_lines * 10
}

/// Whether `options` asks for the chunks of `stream`: those of the two
/// output streams unless the stream is switched off.
pub open spec fn is_wanted(options: LogOptions, stream: Stream) -> bool {
    match stream {
        Stream::StdIn => true,
        Stream::StdOut => options.stdout,
        Stream::StdErr => options.stderr,
    }
}

/// Whether a chunk from `stream` belongs to what `options` asks for.
pub fn wanted(options: LogOptions, stream: Stream) -> (r: bool)
    ensures
        r == is_wanted(options, stream),
{
    match stream {
        Stream::StdIn => true,
        Stream::StdOut => options.stdout,
        Stream::StdErr => options.stderr,
    }
}

/// What plain output prints for a chunk: nothing for a chunk of a stream that
/// `options` leaves out, else the chunk's stored line behind `shown_name`.
pub open spec fn dumped(
    options: LogOptions,
    shown_name: Seq<char>,
    stream: Stream,
    payload: Seq<u8>,
) -> Option<Seq<char>> {
    if is_wanted(options, stream) {
        Some(formatted_line(shown_name, stream, utf8_lossy(payload)))
    } else {
        None
    }
}

/// What plain output prints for a chunk: nothing for a chunk of a stream that
/// `options` leaves out, else the chunk's line as `log_line` forms it behind
/// `shown_name`, the container's name as it is printed.
pub fn dump_line(options: LogOptions, shown_name: &str, stream: Stream, payload: &[u8]) -> (line:
    Option<String>)
    ensures
        line is Some == is_wanted(options, stream),
        match line {
            Some(text) => Some(text@),
            None => None,
        } == dumped(options, shown_name@, stream, payload@),
{
    if wanted(options, stream) {
        Some(log_line(shown_name, stream, payload))
    } else {
        None
    }
}

/// With the error stream switched off, no chunk of it is printed, whatever
/// it holds; a chunk of the output stream, unless that is switched off too,
/// is printed as the name, ` o: ` and the chunk's text.
pub proof fn law_switched_off_stream_is_silent(
    follow: bool,
    tail: usize,
    no_stdout: bool,
    shown_name: Seq<char>,
    payload: Seq<u8>,
)
    ensures
        dumped(
            (LogOptions { follow, tail, stdout: !no_stdout, stderr: false, timestamps: false }),
            shown_name,
            Stream::StdErr,
            payload,
        ) is None,
        !no_stdout ==> dumped(
            (LogOptions { follow, tail, stdout: true, stderr: false, timestamps: false }),
            shown_name,
            Stream::StdOut,
            payload,
        ) == Some(shown_name + seq![' ', 'o', ':', ' '] + trimmed_end(utf8_lossy(payload))),
{
}

/// A chunk that holds the bytes of a text is stored as the name, the
/// stream's letter and that text without the white space at its end.
pub proof fn law_chunk_of_text(name: Seq<char>, stream: Stream, text: Seq<char>)
    ensures
        formatted_line(name, stream, utf8_lossy(encode_utf8(text))) == name + seq![
            ' ',
            descriptor_of(stream),
            ':',
            ' ',
        ] + trimmed_end(text),
{
    law_encoded_text_is_read_back(text);
}

/// Whether `a` and `b` hold the same text.
pub fn same_text(a: &str, b: &str) -> (r: bool)
    ensures
        r == (a@ == b@),
{
    a.to_owned() == b.to_owned()
}

/// The id of the container that an event announces, or `None` for an event
/// that is not the start of a container or that names none.
pub fn started_container(kind: Option<&str>, action: Option<&str>, actor_id: Option<String>) -> (id:
    Option<String>)
    ensures
        id == if is_start_event(
            match kind {
                Some(k) => Some(k@),
                None => None,
            },
            match action {
                Some(a) => Some(a@),
                None => None,
            },
        ) {
            actor_id
        } else {
            None
        },
{
    let is_container = match kind {
        Some(k) => same_text(k, "container"),
        None => false,
    };
    let is_start = match action {
        Some(a) => same_text(a, "start"),
        None => false,
    };
    if is_container && is_start {
        actor_id
    } else {
        None
    }
}

} // verus!
