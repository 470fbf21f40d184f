use indiserver_ui::config::config_file_path_in;
use indiserver_ui::Config;
use indiserver_ui::ConfigError;

fn strings(names: &[&str]) -> Vec<String> {
    names.iter().map(|n| n.to_string()).collect()
}

#[test]
fn default_document_text() {
    let text = Config::default().to_text();
    assert_eq!(text, "[indiserver]\nautostart=false\ndrivers=\n");
}

#[test]
fn parses_driver_list_in_order() {
    let text = "[indiserver]\nautostart=false\ndrivers=/usr/bin/indi_test_ccd,/usr/bin/indi_test_focuser\n";
    let cfg = Config::new(text).unwrap();
    assert_eq!(
        cfg.drivers(),
        strings(&["/usr/bin/indi_test_ccd", "/usr/bin/indi_test_focuser"])
    );
    assert!(!cfg.autostart());
}

#[test]
fn absent_drivers_key_means_no_drivers() {
    let cfg = Config::new("[indiserver]\nautostart=true\n").unwrap();
    assert!(cfg.autostart());
    assert!(cfg.drivers().is_empty());
}

#[test]
fn empty_drivers_value_means_no_drivers() {
    let cfg = Config::new("[indiserver]\nautostart=false\ndrivers=\n").unwrap();
    assert!(cfg.drivers().is_empty());
}

#[test]
fn malformed_autostart_is_fatal() {
    let r = Config::new("[indiserver]\nautostart=maybe\ndrivers=\n");
    assert_eq!(r.unwrap_err(), ConfigError::InvalidAutostart);
}

#[test]
fn missing_autostart_is_fatal() {
    let r = Config::new("[indiserver]\ndrivers=/usr/bin/indi_x\n");
    assert_eq!(r.unwrap_err(), ConfigError::MissingAutostart);
}

#[test]
fn autostart_literals_round_trip() {
    for (text_value, flag) in [("true", true), ("false", false)] {
        let text = format!("[indiserver]\nautostart={}\ndrivers=\n", text_value);
        let cfg = Config::new(&text).unwrap();
        assert_eq!(cfg.autostart(), flag);
        let rewritten = cfg.to_text();
        let again = Config::new(&rewritten).unwrap();
        assert_eq!(again.autostart(), flag);
    }
}

#[test]
fn save_then_load_round_trips_driver_list() {
    let mut cfg = Config::new("[indiserver]\nautostart=true\ndrivers=old\n").unwrap();
    let chosen = strings(&["/usr/bin/indi_test_ccd", "/usr/bin/indi_test_focuser"]);
    cfg.add_drivers_to_config(&chosen);
    let text = cfg.to_text();
    let reloaded = Config::new(&text).unwrap();
    assert_eq!(reloaded.drivers(), chosen);
    assert!(reloaded.autostart());
}

#[test]
fn save_then_load_round_trips_empty_selection() {
    let mut cfg = Config::new("[indiserver]\nautostart=false\ndrivers=a,b\n").unwrap();
    cfg.add_drivers_to_config(&Vec::new());
    let reloaded = Config::new(&cfg.to_text()).unwrap();
    assert!(reloaded.drivers().is_empty());
    assert!(!reloaded.autostart());
}

#[test]
fn last_occurrence_of_a_key_wins() {
    let cfg = Config::new("[indiserver]\nautostart=maybe\nautostart=true\ndrivers=x\ndrivers=y\n")
        .unwrap();
    assert!(cfg.autostart());
    assert_eq!(cfg.drivers(), strings(&["y"]));
}

#[test]
fn header_and_unkeyed_lines_are_ignored() {
    let cfg = Config::new("[indiserver]\nnoise\nautostart=false\n").unwrap();
    assert!(!cfg.autostart());
}

#[test]
fn value_keeps_everything_after_first_equals() {
    let cfg = Config::new("[indiserver]\nautostart=false\ndrivers=a=b\n").unwrap();
    assert_eq!(cfg.drivers(), strings(&["a=b"]));
}

#[test]
fn config_file_location() {
    assert_eq!(
        config_file_path_in("/home/alice/.config"),
        "/home/alice/.config/indiserver_ui/config.ini"
    );
}
