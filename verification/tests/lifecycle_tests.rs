use indiserver_ui::lifecycle::StartError;
use indiserver_ui::lifecycle::StopError;
use indiserver_ui::Lifecycle;
use indiserver_ui::ServerState;

fn strings(names: &[&str]) -> Vec<String> {
    names.iter().map(|n| n.to_string()).collect()
}

#[test]
fn empty_selection_never_yields_a_spawn_command() {
    let lc = Lifecycle::new();
    let r = lc.start_request(Vec::new());
    assert_eq!(r.unwrap_err(), StartError::EmptySelection);
}

#[test]
fn start_then_stop_then_stop_again() {
    let mut lc = Lifecycle::new();
    assert_eq!(lc.state(), ServerState::Stopped);

    let cmd = lc.start_request(strings(&["/usr/bin/indi_test_ccd"])).unwrap();
    assert_eq!(cmd.paths, strings(&["/usr/bin/indi_test_ccd"]));
    lc.confirm_started();
    assert_eq!(lc.state(), ServerState::Running);

    lc.stop_request().unwrap();
    lc.confirm_stopped();
    assert_eq!(lc.state(), ServerState::Stopped);

    let second = lc.stop_request();
    assert_eq!(second.unwrap_err(), StopError::NotRunning);
    assert_eq!(lc.state(), ServerState::Stopped);
}

#[test]
fn start_while_running_is_refused() {
    let mut lc = Lifecycle::new();
    lc.start_request(strings(&["/usr/bin/indi_x"])).unwrap();
    lc.confirm_started();
    let r = lc.start_request(strings(&["/usr/bin/indi_x"]));
    assert_eq!(r.unwrap_err(), StartError::AlreadyRunning);
    assert_eq!(lc.state(), ServerState::Running);
}

#[test]
fn failed_spawn_leaves_the_manager_stopped() {
    let lc = Lifecycle::new();
    let cmd = lc.start_request(strings(&["/usr/bin/indi_x"])).unwrap();
    assert_eq!(cmd.paths.len(), 1);
    assert_eq!(lc.state(), ServerState::Stopped);
}
