//! The text of the info overlay, made from what the runtime reports of a
//! container.

use vstd::prelude::*;
use vstd::string::StringExecFns;

verus! {

/// How `Debug` formats `Some` of the string `text`: `Some(..)` round the
/// quoted and escaped text.
pub uninterp spec fn some_debug(text: Seq<char>) -> Seq<char>;

/// How `Debug` formats an optional string: `None` for none, else what
/// `some_debug` names.
pub open spec fn option_debug(value: Option<Seq<char>>) -> Seq<char> {
    match value {
        Some(text) => some_debug(text),
        None => "None"@,
    }
}

/// The `Debug` format of an optional string, through `format!`: `None` for
/// none, and for a string a text that is a function of the string alone.
#[verifier::external_body]
fn debug_text(value: &Option<String>) -> (text: String)
    ensures
        value matches Some(s) ==> text@ == some_debug(s@),
        value is None ==> text@ == "None"@,
{
    format!("{:?}", value)
}

/// What the runtime reports of a container's state.
#[derive(Debug, Clone)]
pub struct StateDetail {
    pub status: Option<String>,
    pub running: Option<bool>,
    pub started_at: Option<String>,
}

/// What the runtime reports of a container's configuration.
#[derive(Debug, Clone)]
pub struct ConfigDetail {
    pub image: Option<String>,
    pub hostname: Option<String>,
}

/// One network that a container is attached to.
#[derive(Debug, Clone)]
pub struct NetworkDetail {
    pub name: String,
    pub ip_address: Option<String>,
}

/// What the runtime reports of a container, as far as the overlay shows it.
#[derive(Debug, Clone)]
pub struct ContainerDetail {
    pub name: Option<String>,
    pub state: Option<StateDetail>,
    pub config: Option<ConfigDetail>,
    pub networks: Option<Vec<NetworkDetail>>,
}

/// `label`, then `value`, then a line break; nothing where there is no value.
pub open spec fn labelled(label: Seq<char>, value: Option<String>) -> Seq<char> {
    match value {
        Some(v) => label + v@ + "\n"@,
        None => Seq::empty(),
    }
}

/// The line that says whether the container runs.
pub open spec fn running_text(running: Option<bool>) -> Seq<char> {
    match running {
        Some(r) => "Running: "@ + (if r {
            "true"@
        } else {
            "false"@
        }) + "\n"@,
        None => Seq::empty(),
    }
}

/// The lines on a container's state.
pub open spec fn state_text(state: Option<StateDetail>) -> Seq<char> {
    match state {
        Some(s) => "Status: "@ + option_debug(
            match s.status {
                Some(t) => Some(t@),
                None => None,
            },
        ) + "\n"@ + running_text(s.running) + labelled("Started: "@, s.started_at),
        None => Seq::empty(),
    }
}

/// The lines on a container's configuration.
pub open spec fn config_text(config: Option<ConfigDetail>) -> Seq<char> {
    match config {
        Some(c) => labelled("Image: "@, c.image) + labelled("Hostname: "@, c.hostname),
        None => Seq::empty(),
    }
}

/// The line of one network: two spaces, its name, a colon, a space, and its
/// address if it has one.
pub open spec fn network_line(network: NetworkDetail) -> Seq<char> {
    "  "@ + network.name@ + ": "@ + (match network.ip_address {
        Some(ip) => ip@,
        None => Seq::empty(),
    }) + "\n"@
}

/// The lines of the networks, in the order given.
pub open spec fn network_lines(networks: Seq<NetworkDetail>) -> Seq<char>
    decreases networks.len(),
{
    if networks.len() == 0 {
        Seq::empty()
    } else {
        network_lines(networks.drop_last()) + network_line(networks.last())
    }
}

/// The networks under their heading, nothing where none are reported.
pub open spec fn networks_text(networks: Option<Vec<NetworkDetail>>) -> Seq<char> {
    match networks {
        Some(list) => "\nNetworks:\n"@ + network_lines(list@),
        None => Seq::empty(),
    }
}

/// The text of the info overlay for the container `id`.
pub open spec fn info_text_of(id: Seq<char>, detail: ContainerDetail) -> Seq<char> {
    "ID: "@ + id + "\n"@ + labelled("Name: "@, detail.name) + state_text(detail.state)
        + config_text(detail.config) + networks_text(detail.networks)
}

fn push_labelled(out: &mut String, label: &str, value: &Option<String>)
    ensures
        final(out)@ == old(out)@ + labelled(label@, *value),
{
    match value {
        Some(v) => {
            out.append(label);
            out.append(v.as_str());
            out.append("\n");
            assert(out@ =~= old(out)@ + (label@ + v@ + "\n"@));
        },
        None => {
            assert(out@ =~= old(out)@ + Seq::<char>::empty());
        },
    }
}

fn push_running(out: &mut String, running: Option<bool>)
    ensures
        final(out)@ == old(out)@ + running_text(running),
{
    match running {
        Some(r) => {
            out.append("Running: ");
            if r {
                out.append("true");
            } else {
                out.append("false");
            }
            out.append("\n");
            assert(out@ =~= old(out)@ + running_text(running));
        },
        None => {
            assert(out@ =~= old(out)@ + running_text(running));
        },
    }
}

fn push_state(out: &mut String, state: &Option<StateDetail>)
    ensures
        final(out)@ == old(out)@ + state_text(*state),
{
    match state {
        Some(s) => {
            out.append("Status: ");
            let status = debug_text(&s.status);
            out.append(status.as_str());
            out.append("\n");
            assert(out@ =~= old(out)@ + ("Status: "@ + status@ + "\n"@));
            push_running(out, s.running);
            push_labelled(out, "Started: ", &s.started_at);
            assert(out@ =~= old(out)@ + state_text(*state));
        },
        None => {
            assert(out@ =~= old(out)@ + state_text(*state));
        },
    }
}

fn push_config(out: &mut String, config: &Option<ConfigDetail>)
    ensures
        final(out)@ == old(out)@ + config_text(*config),
{
    match config {
        Some(c) => {
            push_labelled(out, "Image: ", &c.image);
            push_labelled(out, "Hostname: ", &c.hostname);
            assert(out@ =~= old(out)@ + config_text(*config));
        },
        None => {
            assert(out@ =~= old(out)@ + config_text(*config));
        },
    }
}

fn push_network(out: &mut String, network: &NetworkDetail)
    ensures
        final(out)@ == old(out)@ + network_line(*network),
{
    out.append("  ");
    out.append(network.name.as_str());
    out.append(": ");
    match &network.ip_address {
        Some(ip) => {
            out.append(ip.as_str());
        },
        None => {},
    }
    out.append("\n");
    assert(out@ =~= old(out)@ + network_line(*network));
}

fn push_networks(out: &mut String, networks: &Option<Vec<NetworkDetail>>)
    ensures
        final(out)@ == old(out)@ + networks_text(*networks),
{
    match networks {
        Some(list) => {
            out.append("\nNetworks:\n");
            let ghost start = out@;
            assert(start + network_lines(list@.take(0)) =~= start);
            let mut i: usize = 0;
            while i < list.len()
                invariant
                    i <= list@.len(),
                    out@ == start + network_lines(list@.take(i as int)),
                decreases list@.len() - i,
            {
                proof {
                    let upto = list@.take(i + 1);
                    assert(upto.drop_last() =~= list@.take(i as int));
                    assert(upto.last() == list@[i as int]);
                }
                push_network(out, &list[i]);
                i += 1;
                assert(out@ =~= start + network_lines(list@.take(i as int)));
            }
            assert(list@.take(list@.len() as int) =~= list@);
            assert(out@ =~= old(out)@ + networks_text(*networks));
        },
        None => {
            assert(out@ =~= old(out)@ + networks_text(*networks));
        },
    }
}

/// The text of the info overlay for the container `container_id`, of which
/// the runtime has reported `detail`.
pub fn container_info_text(container_id: &str, detail: &ContainerDetail) -> (text: String)
    ensures
        text@ == info_text_of(container_id@, *detail),
{
    let mut out = String::from_str("ID: ");
    out.append(container_id);
    out.append("\n");
    push_labelled(&mut out, "Name: ", &detail.name);
    push_state(&mut out, &detail.state);
    push_config(&mut out, &detail.config);
    push_networks(&mut out, &detail.networks);
    out
}

/// The text of the info overlay where the runtime could not report on the
/// container: a fixed start and the error as `error` describes it.
pub fn inspect_failure_text(error: &str) -> (text: String)
    ensures
        text@ == "Failed to inspect container: "@ + error@,
{
    let mut out = String::from_str("Failed to inspect container: ");
    out.append(error);
    out
}

} // verus!
