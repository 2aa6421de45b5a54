use spk_solve::build_keys::{build_key_names, BuildOptions, EmptyBuildIterator};
use spk_solve::component::Component;
use spk_solve::globals::{GlobalVars, VarValue};
use spk_solve::partition::PartitionIter;
use spk_solve::provider::{
    options_for, DepRequest, InclusionPolicy, PkgDepRequest, SpkProvider, VarDepRequest, VarOptions,
    VersionSetKind,
};
use spk_solve::spec::{select_api, ApiField, Spec, SpecApi, SpecRecipe, V0Spec};
use spk_solve::validation::{default_validators, ValidationSpec, Validator};

#[test]
fn partitions_follow_runs_of_equal_keys() {
    let mut it = PartitionIter::new(vec![1, 1, 2, 5, 5, 5]);
    assert_eq!(it.next(), Some((0, 2)));
    assert_eq!(it.next(), Some((2, 3)));
    assert_eq!(it.next(), Some((3, 6)));
    assert_eq!(it.next(), None);
}

#[test]
fn empty_build_iterator_is_empty() {
    let mut it = EmptyBuildIterator::new();
    assert!(it.is_empty());
    assert_eq!(it.len(), 0);
    assert!(!it.is_sorted_build_iterator());
    assert!(it.recipe().is_none());
    assert_eq!(it.next(), None);
}

fn opts(is_source: bool, pairs: &[(&str, &str)]) -> BuildOptions {
    BuildOptions {
        is_source,
        options: pairs.iter().map(|(k, v)| (k.to_string(), v.to_string())).collect(),
    }
}

#[test]
fn build_keys_use_names_that_tell_builds_apart() {
    let builds = vec![
        opts(false, &[("python", "3.7"), ("os", "linux"), ("debug", "off")]),
        opts(false, &[("python", "3.9"), ("os", "linux"), ("arch", "x86")]),
        opts(true, &[("zzz", "1")]),
    ];
    let order = vec!["gcc".to_string(), "python".to_string()];
    assert_eq!(
        build_key_names(&builds, &order),
        vec!["python".to_string(), "arch".to_string(), "debug".to_string()]
    );
}

#[test]
fn validators_can_be_disabled() {
    assert_eq!(
        default_validators(),
        vec![
            Validator::MustInstallSomething,
            Validator::MustNotAlterExistingFiles,
            Validator::MustCollectAllFiles
        ]
    );
    let spec = ValidationSpec::default();
    assert!(spec.is_default());
    assert_eq!(spec.configured_validators(), default_validators());
    let spec = ValidationSpec { disabled: vec![Validator::MustCollectAllFiles] };
    assert!(!spec.is_default());
    assert_eq!(
        spec.configured_validators(),
        vec![Validator::MustInstallSomething, Validator::MustNotAlterExistingFiles]
    );
}

#[test]
fn spec_api_is_chosen_from_the_api_field() {
    assert_eq!(select_api(&ApiField::Missing), Ok(SpecApi::V0Package));
    assert_eq!(select_api(&ApiField::Text("v0/package".to_string())), Ok(SpecApi::V0Package));
    assert_eq!(
        select_api(&ApiField::Text("v1/platform".to_string())),
        Err("Unknown api variant: 'v1/platform'".to_string())
    );
    assert_eq!(
        select_api(&ApiField::NotText),
        Err("Invalid value for field 'api', expected string type".to_string())
    );
    let spec = Spec::V0Package(V0Spec { name: "a".to_string(), version: "1.0".to_string(), deprecated: true });
    assert_eq!(spec.name(), "a");
    assert_eq!(spec.version(), "1.0");
    assert!(spec.is_deprecated());
    let recipe = SpecRecipe::V0Package(V0Spec { name: "b".to_string(), version: "2".to_string(), deprecated: false });
    assert_eq!(recipe.name(), "b");
    assert!(!recipe.is_deprecated());
}

#[test]
fn global_vars_cancel_on_a_new_value_after_a_query() {
    let mut vars = GlobalVars::new();
    let os = "os".to_string();
    assert!(vars.observe(&os, &"linux".to_string()));
    assert!(!vars.observe(&os, &"linux".to_string()));
    assert!(!vars.is_canceled());
    assert_eq!(vars.candidates(&os), Some(vec!["linux".to_string()]));
    assert_eq!(vars.candidates(&"arch".to_string()), None);
    assert!(vars.observe(&os, &"darwin".to_string()));
    assert!(vars.is_canceled());
    assert_eq!(
        vars.cancel_reason().as_deref(),
        Some("Saw new value for global var: os/darwin")
    );
    let mut restarted = vars.restart();
    assert!(!restarted.is_canceled());
    assert_eq!(
        restarted.candidates(&os),
        Some(vec!["linux".to_string(), "darwin".to_string()])
    );
    assert_eq!(VarValue::Owned("x".to_string()).as_str(), "x");
}

#[test]
fn package_requests_become_one_version_set_per_component() {
    let provider = SpkProvider::new(true);
    let req = PkgDepRequest {
        name: "python".to_string(),
        components: vec![Component::Run, Component::Build],
        build_is_source: false,
        prerelease: None,
        inclusion: InclusionPolicy::Always,
    };
    let deps = provider.pkg_request_to_known_dependencies(&req);
    assert_eq!(deps.requirements.len(), 2);
    assert!(deps.constrains.is_empty());
    match &deps.requirements[1].kind {
        VersionSetKind::PkgComponent { component, .. } => assert!(component.same_as(&Component::Build)),
        other => panic!("unexpected {other:?}"),
    }
    let optional = PkgDepRequest {
        name: "gcc".to_string(),
        components: vec![],
        build_is_source: true,
        prerelease: None,
        inclusion: InclusionPolicy::IfAlreadyPresent,
    };
    let deps = provider.pkg_request_to_known_dependencies(&optional);
    assert!(deps.requirements.is_empty());
    assert_eq!(deps.constrains.len(), 1);
    match &deps.constrains[0].kind {
        VersionSetKind::PkgComponent { component, .. } => assert!(component.same_as(&Component::Source)),
        other => panic!("unexpected {other:?}"),
    }
}

#[test]
fn provider_reset_keeps_what_it_learned() {
    let mut provider = SpkProvider::new(false);
    let reqs = vec![DepRequest::Var(VarDepRequest {
        namespace: None,
        key: "os".to_string(),
        value: "linux".to_string(),
    })];
    let _ = provider.requests_to_known_dependencies(&reqs);
    assert_eq!(provider.global_var_candidates(&"os".to_string()), Some(vec!["linux".to_string()]));
    let mut reset = provider.reset();
    assert!(!reset.is_canceled());
    assert_eq!(reset.global_var_candidates(&"os".to_string()), Some(vec!["linux".to_string()]));
}

#[test]
fn var_values_compare_by_text() {
    let a = VarValue::ArcStr("1.2".to_string());
    let b = VarValue::Owned("1.2".to_string());
    let c = VarValue::Owned("2.0".to_string());
    assert!(a == b);
    assert!(a != c);
    assert!(a < c);
    assert_eq!(c.partial_cmp(&b), Some(std::cmp::Ordering::Greater));
}

fn var_req(ns: Option<&str>, key: &str, value: &str) -> DepRequest {
    DepRequest::Var(VarDepRequest {
        namespace: ns.map(|n| n.to_string()),
        key: key.to_string(),
        value: value.to_string(),
    })
}

#[test]
fn embedded_request_options_keep_the_last_value_of_each_var() {
    let rs = vec![
        var_req(Some("gcc"), "version", "9"),
        var_req(Some("python"), "abi", "cp39"),
        var_req(None, "os", "linux"),
        var_req(Some("gcc"), "version", "10"),
        var_req(Some("gcc"), "arch", "x86_64"),
    ];
    let mut seen = Vec::new();
    let mut o = options_for(&rs, &"gcc".to_string());
    loop {
        match o {
            VarOptions::End => break,
            VarOptions::Then(v, rest) => {
                seen.push((v.key, v.value));
                o = *rest;
            }
        }
    }
    assert_eq!(
        seen,
        vec![("version".to_string(), "10".to_string()), ("arch".to_string(), "x86_64".to_string())]
    );
    assert!(matches!(options_for(&rs, &"cmake".to_string()), VarOptions::End));
}

#[test]
fn sub_solve_is_set_up_with_trail_and_global_vars_last() {
    let mut provider = SpkProvider::new(true);
    let _ = provider.var_requirements(&vec![var_req(None, "os", "linux")]);
    let setup = provider.sub_solve_setup(
        &vec!["a/1.0/src".to_string()],
        &"b/2.0/src".to_string(),
        vec![var_req(Some("b"), "debug", "on")],
    );
    assert!(!setup.binary_only);
    assert_eq!(setup.trail, vec!["a/1.0/src".to_string(), "b/2.0/src".to_string()]);
    assert_eq!(setup.requests.len(), 2);
    match &setup.requests[1] {
        DepRequest::Var(v) => {
            assert!(v.namespace.is_none());
            assert_eq!((v.key.as_str(), v.value.as_str()), ("os", "linux"));
        }
        _ => panic!("expected the global var request last"),
    }
}
