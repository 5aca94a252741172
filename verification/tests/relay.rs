use portal_guard::relay::{
    list_items_names_path, show_single_path, RelayShowOutput, ShowCommand, ShowError,
};

fn relay() -> RelayShowOutput {
    RelayShowOutput {
        relay_route: String::from("/ip4/127.0.0.1/tcp/4000/service/hop"),
        remote_address: String::from("/service/forward_to_n1"),
        worker_address: String::from("/service/abc"),
    }
}

#[test]
fn command_is_named_show_relay() {
    let command = ShowCommand::new(None, None);
    assert_eq!(command.name(), "show relay");
}

#[test]
fn command_keeps_its_node() {
    let command = ShowCommand::new(None, Some(String::from("n1")));
    assert_eq!(command.at, Some(String::from("n1")));
}

#[test]
fn relay_name_is_handed_out() {
    let command = ShowCommand::new(Some(String::from("forward_to_n1")), None);
    assert_eq!(command.cmd_arg_item_name(), Some("forward_to_n1"));
    assert_eq!(command.get_arg_item_name_or_default(), Ok(String::from("forward_to_n1")));
}

#[test]
fn missing_relay_name_is_an_error() {
    let command = ShowCommand::new(None, Some(String::from("n1")));
    assert_eq!(command.cmd_arg_item_name(), None);
    assert_eq!(command.get_arg_item_name_or_default(), Err(ShowError::NoRelayName));
    assert_eq!(ShowError::NoRelayName.message(), "No relay name provided");
}

#[test]
fn request_paths() {
    assert_eq!(list_items_names_path(), "/node/forwarder");
    assert_eq!(show_single_path("forward_to_n1"), "/node/forwarder/forward_to_n1");
    assert_eq!(show_single_path(""), "/node/forwarder/");
}

#[test]
fn single_relay_is_printed_under_a_heading() {
    let expected = "Relay:\n    Relay Route: /ip4/127.0.0.1/tcp/4000/service/hop\n    Remote Address: /service/forward_to_n1\n    Worker Address: /service/abc\n";
    assert_eq!(relay().output(), Ok(String::from(expected)));
}

#[test]
fn listed_relay_is_printed_without_heading() {
    let expected = "Relay Route: /ip4/127.0.0.1/tcp/4000/service/hop\nRemote Address: /service/forward_to_n1\nWorker Address: /service/abc";
    assert_eq!(relay().list_output(), Ok(String::from(expected)));
}
