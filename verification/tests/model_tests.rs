use rehearsa::model::{convert_healthcheck, dep_map, parse_duration, ComposeFile, HealthCheck, Service};

fn service(deps: &[&str]) -> Service {
    Service {
        image: Some("nginx:1.25".to_string()),
        environment: None,
        volumes: None,
        depends_on: if deps.is_empty() {
            None
        } else {
            Some(deps.iter().map(|d| d.to_string()).collect())
        },
        command: None,
        entrypoint: None,
        healthcheck: None,
        ports: None,
        labels: None,
    }
}

#[test]
fn durations_of_the_ns_form_parse_to_nanoseconds() {
    assert_eq!(parse_duration(&Some("5s".to_string())), Some(5_000_000_000));
    assert_eq!(parse_duration(&Some("30s".to_string())), Some(30_000_000_000));
    assert_eq!(parse_duration(&Some("5m".to_string())), None);
    assert_eq!(parse_duration(&Some("s".to_string())), None);
    assert_eq!(parse_duration(&Some("".to_string())), None);
    assert_eq!(parse_duration(&None), None);
    // a value whose nanoseconds would not fit is omitted
    assert_eq!(parse_duration(&Some("99999999999s".to_string())), None);
}

#[test]
fn healthchecks_translate_with_unparseable_parts_omitted() {
    let h = HealthCheck {
        test: Some(vec!["CMD".to_string(), "true".to_string()]),
        interval: Some("10s".to_string()),
        timeout: Some("soon".to_string()),
        retries: Some(3),
    };
    let c = convert_healthcheck(&h);
    assert_eq!(c.interval_ns, Some(10_000_000_000));
    assert_eq!(c.timeout_ns, None);
    assert_eq!(c.retries, Some(3));
    assert_eq!(c.test.as_deref(), Some(&["CMD".to_string(), "true".to_string()][..]));
}

#[test]
fn dep_map_mirrors_the_services() {
    let compose = ComposeFile {
        services: vec![
            ("api".to_string(), service(&["db"])),
            ("db".to_string(), service(&[])),
        ],
        external_networks: vec![],
    };
    let deps = dep_map(&compose);
    assert_eq!(deps.len(), 2);
    assert_eq!(deps[0].0, "api");
    assert_eq!(deps[0].1, vec!["db".to_string()]);
    assert_eq!(deps[1].0, "db");
    assert!(deps[1].1.is_empty());
}

#[test]
fn model_validation_accepts_resolved_unique_stacks() {
    let compose = ComposeFile {
        services: vec![
            ("api".to_string(), service(&["db"])),
            ("db".to_string(), service(&[])),
        ],
        external_networks: vec![],
    };
    assert!(rehearsa::model::validate_model(&compose).is_ok());
}

#[test]
fn model_validation_rejects_duplicates_and_dangling_deps() {
    let duplicate = ComposeFile {
        services: vec![
            ("api".to_string(), service(&[])),
            ("api".to_string(), service(&[])),
        ],
        external_networks: vec![],
    };
    assert!(matches!(
        rehearsa::model::validate_model(&duplicate),
        Err(rehearsa::model::ModelError::DuplicateService(n)) if n == "api"
    ));
    let dangling = ComposeFile {
        services: vec![("api".to_string(), service(&["ghost"]))],
        external_networks: vec![],
    };
    assert!(matches!(
        rehearsa::model::validate_model(&dangling),
        Err(rehearsa::model::ModelError::UnknownDependency(s, d)) if s == "api" && d == "ghost"
    ));
}
