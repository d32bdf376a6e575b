use oblivion_session::config::ConfigError;
use oblivion_session::config::DescriptorSet;
use oblivion_session::descriptor::ServiceDescriptor;

fn desc(name: &str, deps: &[&str], critical: bool) -> ServiceDescriptor {
    let mut d = ServiceDescriptor::new(name.to_string(), format!("./bin/{}", name), critical);
    d.depends_on = deps.iter().map(|s| s.to_string()).collect();
    d
}

#[test]
fn accepts_acyclic_set_in_declaration_order() {
    let set = DescriptorSet::new(vec![
        desc("compositor", &[], true),
        desc("panel", &["compositor"], true),
        desc("shell", &["compositor"], true),
    ])
    .unwrap();
    assert_eq!(set.len(), 3);
    assert_eq!(set.launch_order().as_slice(), &[0, 1, 2]);
    assert_eq!(set.deps_of(1).as_slice(), &[0]);
    assert_eq!(set.deps_of(2).as_slice(), &[0]);
}

#[test]
fn launch_order_follows_dependencies_not_declaration() {
    let set = DescriptorSet::new(vec![
        desc("shell", &["panel"], false),
        desc("panel", &["compositor"], false),
        desc("compositor", &[], true),
    ])
    .unwrap();
    assert_eq!(set.launch_order().as_slice(), &[2, 1, 0]);
}

#[test]
fn ties_break_by_declaration_order() {
    let set = DescriptorSet::new(vec![
        desc("compositor", &[], true),
        desc("shell", &["compositor"], false),
        desc("panel", &["compositor"], false),
    ])
    .unwrap();
    assert_eq!(set.launch_order().as_slice(), &[0, 1, 2]);
}

#[test]
fn rejects_dependency_cycle() {
    let r = DescriptorSet::new(vec![
        desc("a", &["b"], false),
        desc("b", &["a"], false),
    ]);
    assert_eq!(r.unwrap_err(), ConfigError::DependencyCycle);
}

#[test]
fn rejects_self_dependency() {
    let r = DescriptorSet::new(vec![desc("a", &["a"], false)]);
    assert_eq!(r.unwrap_err(), ConfigError::DependencyCycle);
}

#[test]
fn rejects_duplicate_names() {
    let r = DescriptorSet::new(vec![
        desc("panel", &[], false),
        desc("panel", &[], false),
    ]);
    assert_eq!(r.unwrap_err(), ConfigError::DuplicateName { first: 0, second: 1 });
}

#[test]
fn rejects_unknown_dependency() {
    let r = DescriptorSet::new(vec![desc("panel", &["compositor"], false)]);
    assert_eq!(r.unwrap_err(), ConfigError::UnknownDependency { service: 0, dep: 0 });
}

#[test]
fn accepts_empty_set() {
    let set = DescriptorSet::new(Vec::new()).unwrap();
    assert_eq!(set.len(), 0);
    assert!(set.launch_order().is_empty());
}

#[test]
fn descriptor_defaults() {
    let d = ServiceDescriptor::new("panel".to_string(), "./bin/panel".to_string(), false);
    assert_eq!(d.name, "panel");
    assert_eq!(d.command, "./bin/panel");
    assert!(!d.critical);
    assert!(d.args.is_empty());
    assert!(d.depends_on.is_empty());
    assert_eq!(d.grace_timeout_ms, 3000);
}
