use rehearsa::preflight::{
    compute_score, image_unpinned, run_preflight, split_host_path, BindMountRule, EnvVarRule,
    ExternalNetworkRule, ImagePullRule, PreflightFinding, Severity,
};

fn probe(service: &str, value: &str, flag: bool) -> (String, String, bool) {
    (service.to_string(), value.to_string(), flag)
}

#[test]
fn clean_stack_scores_one_hundred() {
    let r = run_preflight(&vec![], &vec![], &vec![], &vec![], &None);
    assert_eq!(r.score, 100);
    assert!(r.findings.is_empty());
}

#[test]
fn missing_bind_mount_costs_twenty_five() {
    let f = BindMountRule.evaluate(&vec![probe("db", "/data/db", false)]);
    assert_eq!(f.len(), 1);
    assert_eq!(f[0].penalty, 25);
    assert!(matches!(f[0].severity, Severity::Critical));
    let ok = BindMountRule.evaluate(&vec![probe("db", "/data/db", true)]);
    assert_eq!(ok[0].penalty, 0);
    assert!(matches!(ok[0].severity, Severity::Info));
}

#[test]
fn unpinned_and_unpullable_images_are_flagged() {
    assert!(image_unpinned("nginx"));
    assert!(image_unpinned("nginx:latest"));
    assert!(!image_unpinned("nginx:1.25"));
    let f = ImagePullRule.evaluate(&vec![probe("web", "nginx:latest", true)]);
    assert_eq!(f.len(), 2);
    assert_eq!(f[0].penalty, 5);
    assert_eq!(f[1].penalty, 30);
    let pinned_ok = ImagePullRule.evaluate(&vec![probe("web", "nginx:1.25", false)]);
    assert!(pinned_ok.is_empty());
}

#[test]
fn absent_env_key_costs_twenty() {
    let f = EnvVarRule.evaluate(&vec![probe("api", "API_TOKEN", false)]);
    assert_eq!(f[0].penalty, 20);
    assert!(matches!(f[0].severity, Severity::Critical));
    let present = EnvVarRule.evaluate(&vec![probe("api", "HOME", true)]);
    assert_eq!(present[0].penalty, 0);
}

#[test]
fn external_networks_need_the_host_to_have_them() {
    let declared = vec!["edge".to_string(), "mesh".to_string()];
    let host = Some(vec!["mesh".to_string()]);
    let f = ExternalNetworkRule.evaluate(&declared, &host);
    assert_eq!(f.len(), 2);
    assert_eq!(f[0].penalty, 25);
    assert_eq!(f[1].penalty, 0);
    // unreachable runtime: the rule stays silent
    let silent = ExternalNetworkRule.evaluate(&declared, &None);
    assert!(silent.is_empty());
}

#[test]
fn score_saturates_at_zero() {
    let f = |p: u32| PreflightFinding {
        rule: "BindMountRule".to_string(),
        severity: Severity::Critical,
        message: String::new(),
        penalty: p,
    };
    assert_eq!(compute_score(&vec![f(25), f(30), f(20)]), 25);
    assert_eq!(compute_score(&vec![f(25), f(30), f(20), f(25), f(30)]), 0);
    assert_eq!(compute_score(&vec![]), 100);
}

#[test]
fn host_paths_split_from_volume_specs() {
    assert_eq!(split_host_path("/data/db:/var/lib/db"), Some("/data/db".to_string()));
    assert_eq!(split_host_path("named-volume:/var/lib/db"), None);
    assert_eq!(split_host_path("noseparator"), None);
}

#[test]
fn findings_come_out_in_registration_order() {
    let mounts = vec![probe("db", "/data/db", false)];
    let images = vec![probe("web", "nginx:latest", false)];
    let env_keys = vec![probe("api", "API_TOKEN", false)];
    let external = vec!["edge".to_string()];
    let host = Some(vec![]);
    let r = run_preflight(&mounts, &images, &env_keys, &external, &host);
    let rules: Vec<&str> = r.findings.iter().map(|f| f.rule.as_str()).collect();
    assert_eq!(
        rules,
        vec!["BindMountRule", "ImagePullRule", "EnvVarRule", "ExternalNetworkRule"]
    );
    assert!(matches!(r.findings[1].severity, Severity::Warning));
    assert_eq!(r.score, 100 - 25 - 5 - 20 - 25);
}
