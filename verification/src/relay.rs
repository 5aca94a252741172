//! Showing one relay of a node: the command's arguments, the requests it
//! puts to the node, and the text it prints.

use vstd::prelude::*;
use vstd::string::StringExecFns;

verus! {

/// Show a Relay given its name
#[derive(Clone, Debug)]
pub struct ShowCommand {
    /// Name assigned to the Relay, prefixed with 'forward_to_'. Example: 'forward_to_myrelay'
    relay_name: Option<String>,
    /// Node which the relay belongs to
    pub at: Option<String>,
}

/// Why the command cannot show a relay.
#[derive(Clone, Copy, Debug, PartialEq, Eq, Structural)]
pub enum ShowError {
    /// The command was given no relay to show.
    NoRelayName,
}

impl ShowError {
    /// The message that goes with the error.
    pub fn message(&self) -> (message: String)
        ensures
            message@ == "No relay name provided"@,
    {
        String::from_str("No relay name provided")
    }
}

/// The views of an optional string.
pub open spec fn text_of(text: Option<String>) -> Option<Seq<char>> {
    match text {
        Some(text) => Some(text@),
        None => None,
    }
}

impl ShowCommand {
    /// The relay that the command was given, if any.
    pub closed spec fn relay_name(&self) -> Option<Seq<char>> {
        text_of(self.relay_name)
    }

    /// The node that the command was pointed at, if any.
    pub closed spec fn node(&self) -> Option<Seq<char>> {
        text_of(self.at)
    }

    /// The command for the given relay on the given node.
    pub fn new(relay_name: Option<String>, at: Option<String>) -> (command: ShowCommand)
        ensures
            command.relay_name() == text_of(relay_name),
            command.node() == text_of(at),
    {
        ShowCommand { relay_name, at }
    }

    /// The name under which the command runs.
    pub fn name(&self) -> (name: String)
        ensures
            name@ == "show relay"@,
    {
        String::from_str("show relay")
    }

    /// The relay named on the command line, if one was.
    pub fn cmd_arg_item_name(&self) -> (name: Option<&str>)
        ensures
            match name {
                Some(name) => self.relay_name() == Some(name@),
                None => self.relay_name() is None,
            },
    {
        match &self.relay_name {
            Some(name) => Some(name.as_str()),
            None => None,
        }
    }

    /// The relay to show. There is no default: without a name on the command
    /// line this is an error.
    pub fn get_arg_item_name_or_default(&self) -> (name: Result<String, ShowError>)
        ensures
            match name {
                Ok(name) => self.relay_name() == Some(name@),
                Err(error) => self.relay_name() is None && error == ShowError::NoRelayName,
            },
    {
        match &self.relay_name {
            Some(name) => Ok(name.clone()),
            None => Err(ShowError::NoRelayName),
        }
    }
}

/// The request path under which a node lists its relays.
pub open spec fn relays_path() -> Seq<char> {
    "/node/forwarder"@
}

/// The request path under which a node describes the relay `item_name`.
pub open spec fn relay_path(item_name: Seq<char>) -> Seq<char> {
    "/node/forwarder/"@ + item_name
}

/// The path of the request that lists the relays of a node.
pub fn list_items_names_path() -> (path: String)
    ensures
        path@ == relays_path(),
{
    String::from_str("/node/forwarder")
}

/// The path of the request that describes one relay.
pub fn show_single_path(item_name: &str) -> (path: String)
    ensures
        path@ == relay_path(item_name@),
{
    String::from_str("/node/forwarder/").concat(item_name)
}

/// What is shown of a relay: its route and its two addresses, as text.
#[derive(Clone, Debug)]
pub struct RelayShowOutput {
    pub relay_route: String,
    pub remote_address: String,
    pub worker_address: String,
}

/// The three lines that describe a relay, each beginning with `indent`,
/// with line breaks between them.
pub open spec fn relay_lines(
    indent: Seq<char>,
    relay_route: Seq<char>,
    remote_address: Seq<char>,
    worker_address: Seq<char>,
) -> Seq<char> {
    indent + "Relay Route: "@ + relay_route + "\n"@ + indent + "Remote Address: "@
        + remote_address + "\n"@ + indent + "Worker Address: "@ + worker_address
}

impl RelayShowOutput {
    /// The three lines, each after `indent`.
    fn lines(&self, indent: &str) -> (text: String)
        ensures
            text@ == relay_lines(
                indent@,
                self.relay_route@,
                self.remote_address@,
                self.worker_address@,
            ),
    {
        let mut text = String::from_str(indent);
        text.append("Relay Route: ");
        text.append(self.relay_route.as_str());
        text.append("\n");
        text.append(indent);
        text.append("Remote Address: ");
        text.append(self.remote_address.as_str());
        text.append("\n");
        text.append(indent);
        text.append("Worker Address: ");
        text.append(self.worker_address.as_str());
        text
    }

    /// The relay as it is printed on its own: a heading, then the three
    /// lines indented by four spaces, then a line break.
    pub fn output(&self) -> (text: Result<String, ShowError>)
        ensures
            text matches Ok(text) && text@ == "Relay:\n"@ + relay_lines(
                "    "@,
                self.relay_route@,
                self.remote_address@,
                self.worker_address@,
            ) + "\n"@,
    {
        let mut text = String::from_str("Relay:\n");
        let lines = self.lines("    ");
        text.append(lines.as_str());
        text.append("\n");
        Ok(text)
    }

    /// The relay as it is printed in a list: the three lines, not indented
    /// and without a line break at the end.
    pub fn list_output(&self) -> (text: Result<String, ShowError>)
        ensures
            text matches Ok(text) && text@ == relay_lines(
                ""@,
                self.relay_route@,
                self.remote_address@,
                self.worker_address@,
            ),
    {
        Ok(self.lines(""))
    }
}

} // verus!
