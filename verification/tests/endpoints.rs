use shell_script_manager::endpoints::{
    app_state_url, backend_arguments, closing_event, dark_mode_body, database_url, health_url,
    port_text, toggle_dark_mode_event,
};

#[test]
fn ports_in_decimal() {
    assert_eq!(port_text(0), "0");
    assert_eq!(port_text(7), "7");
    assert_eq!(port_text(10), "10");
    assert_eq!(port_text(7070), "7070");
    assert_eq!(port_text(10000), "10000");
    assert_eq!(port_text(60000), "60000");
    assert_eq!(port_text(65535), "65535");
    for port in [1u16, 9, 99, 100, 101, 999, 1000, 12345, 54321] {
        assert_eq!(port_text(port), port.to_string());
    }
}

#[test]
fn backend_addresses() {
    assert_eq!(health_url(7070), "http://localhost:7070/health");
    assert_eq!(health_url(10000), "http://localhost:10000/health");
    assert_eq!(app_state_url(43210), "http://localhost:43210/app-state");
}

#[test]
fn settings_update_body() {
    assert_eq!(dark_mode_body(true), "{\"darkMode\":true}");
    assert_eq!(dark_mode_body(false), "{\"darkMode\":false}");
}

#[test]
fn backend_start_arguments() {
    assert_eq!(
        backend_arguments(12345, "/home/me/.config/app/database.db"),
        vec![
            "--server.port=12345".to_string(),
            "--spring.datasource.url=jdbc:sqlite:/home/me/.config/app/database.db".to_string()
        ]
    );
    assert_eq!(database_url("/tmp/database.db"), "file:/tmp/database.db");
}

#[test]
fn event_names() {
    assert_eq!(closing_event(), "app-closing");
    assert_eq!(toggle_dark_mode_event(), "toggle-dark-mode");
}
