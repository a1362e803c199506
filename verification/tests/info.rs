use container_logs::info::{
    container_info_text, inspect_failure_text, ConfigDetail, ContainerDetail, NetworkDetail,
    StateDetail,
};

fn text(s: &str) -> Option<String> {
    Some(s.to_string())
}

#[test]
fn bare_details_show_the_id_only() {
    let detail = ContainerDetail { name: None, state: None, config: None, networks: None };
    assert_eq!(container_info_text("abc123", &detail), "ID: abc123\n");
}

#[test]
fn full_details_are_listed_in_order() {
    let detail = ContainerDetail {
        name: text("/web"),
        state: Some(StateDetail {
            status: text("running"),
            running: Some(true),
            started_at: text("2024-05-01T10:00:00Z"),
        }),
        config: Some(ConfigDetail { image: text("nginx:1.25"), hostname: text("web-1") }),
        networks: Some(vec![
            NetworkDetail { name: "bridge".to_string(), ip_address: text("172.17.0.2") },
            NetworkDetail { name: "backend".to_string(), ip_address: None },
        ]),
    };
    assert_eq!(
        container_info_text("abc123", &detail),
        "ID: abc123\n\
         Name: /web\n\
         Status: Some(\"running\")\n\
         Running: true\n\
         Started: 2024-05-01T10:00:00Z\n\
         Image: nginx:1.25\n\
         Hostname: web-1\n\
         \nNetworks:\n  bridge: 172.17.0.2\n  backend: \n"
    );
}

#[test]
fn missing_parts_are_left_out() {
    let detail = ContainerDetail {
        name: None,
        state: Some(StateDetail { status: None, running: Some(false), started_at: None }),
        config: Some(ConfigDetail { image: None, hostname: text("h") }),
        networks: Some(Vec::new()),
    };
    assert_eq!(
        container_info_text("x", &detail),
        "ID: x\nStatus: None\nRunning: false\nHostname: h\n\nNetworks:\n"
    );
}

#[test]
fn status_is_shown_quoted_and_escaped() {
    let detail = ContainerDetail {
        name: None,
        state: Some(StateDetail { status: text("a\"b\n"), running: None, started_at: None }),
        config: None,
        networks: None,
    };
    assert_eq!(container_info_text("x", &detail), "ID: x\nStatus: Some(\"a\\\"b\\n\")\n");
}

#[test]
fn failures_are_reported_with_the_error() {
    assert_eq!(
        inspect_failure_text("Fault { code: 404 }"),
        "Failed to inspect container: Fault { code: 404 }"
    );
    assert_eq!(inspect_failure_text(""), "Failed to inspect container: ");
}
