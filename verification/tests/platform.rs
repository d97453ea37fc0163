use piston_meta::{
    Library, LibraryDownload, LibraryDownloads, LibraryExtractInstructions, OsName, OsRule, ReleaseKind,
    Rule, RuleAction,
};

fn file(path: &str) -> LibraryDownload {
    LibraryDownload {
        path: path.to_string(),
        sha1: "da39a3ee5e6b4b0d3255bfef95601890afd80709".to_string(),
        size: 7,
        url: format!("https://libraries.example/{}", path),
    }
}

fn library(natives: Vec<(OsName, String)>, rules: Vec<Rule>) -> Library {
    Library {
        downloads: LibraryDownloads {
            artifact: file("lib.jar"),
            classifiers: vec![
                ("natives-linux".to_string(), file("lib-linux.jar")),
                ("natives-windows".to_string(), file("lib-windows.jar")),
            ],
        },
        extract: LibraryExtractInstructions::default(),
        name: "org.example:lib:1.0".to_string(),
        natives,
        rules,
    }
}

#[test]
fn os_name_is_current_only_for_itself() {
    assert!(OsName::Linux.is_current(OsName::Linux));
    assert!(!OsName::Linux.is_current(OsName::Windows));
    assert!(!OsName::Osx.is_current(OsName::Linux));
    assert!(OsRule { name: OsName::Osx }.allow(OsName::Osx));
    assert!(!OsRule { name: OsName::Osx }.allow(OsName::Windows));
}

#[test]
fn rule_without_condition() {
    let allow = Rule { action: RuleAction::Allow, os: None };
    let disallow = Rule { action: RuleAction::Disallow, os: None };
    for os in [OsName::Linux, OsName::Windows, OsName::Osx] {
        assert!(allow.allow(os));
        assert!(!disallow.allow(os));
    }
}

#[test]
fn rule_with_condition() {
    let allow = Rule { action: RuleAction::Allow, os: Some(OsRule { name: OsName::Osx }) };
    let disallow = Rule { action: RuleAction::Disallow, os: Some(OsRule { name: OsName::Osx }) };
    assert!(allow.allow(OsName::Osx));
    assert!(!allow.allow(OsName::Linux));
    assert!(!disallow.allow(OsName::Osx));
    assert!(disallow.allow(OsName::Linux));
}

#[test]
fn extract_instructions_are_empty_without_paths() {
    assert!(LibraryExtractInstructions::default().is_empty());
    assert!(LibraryExtractInstructions { exclude: vec![] }.is_empty());
    assert!(!LibraryExtractInstructions { exclude: vec!["META-INF/".to_string()] }.is_empty());
}

#[test]
fn native_file_goes_by_the_classifier_of_the_system() {
    let lib = library(
        vec![
            (OsName::Linux, "natives-linux".to_string()),
            (OsName::Windows, "natives-windows".to_string()),
            (OsName::Osx, "natives-osx".to_string()),
        ],
        vec![],
    );
    assert_eq!(lib.artifact(), &file("lib.jar"));
    assert_eq!(lib.classifier(OsName::Osx), Some(&"natives-osx".to_string()));
    assert_eq!(lib.native(OsName::Linux), Some(&file("lib-linux.jar")));
    assert_eq!(lib.native(OsName::Windows), Some(&file("lib-windows.jar")));
    assert_eq!(lib.native(OsName::Osx), None);
    assert_eq!(library(vec![], vec![]).native(OsName::Linux), None);
}

#[test]
fn download_plan_follows_the_rules() {
    let natives = vec![(OsName::Linux, "natives-linux".to_string())];
    let open = library(natives.clone(), vec![]);
    assert_eq!(
        open.download_plan(OsName::Linux),
        Some((&file("lib.jar"), Some(&file("lib-linux.jar"))))
    );
    assert_eq!(open.download_plan(OsName::Osx), Some((&file("lib.jar"), None)));
    let no_osx = library(
        natives,
        vec![
            Rule { action: RuleAction::Allow, os: None },
            Rule { action: RuleAction::Disallow, os: Some(OsRule { name: OsName::Osx }) },
        ],
    );
    assert_eq!(no_osx.download_plan(OsName::Osx), None);
    assert_eq!(
        no_osx.download_plan(OsName::Linux),
        Some((&file("lib.jar"), Some(&file("lib-linux.jar"))))
    );
}

#[test]
fn first_pair_counts_where_a_system_stands_twice() {
    let lib = library(
        vec![
            (OsName::Linux, "natives-windows".to_string()),
            (OsName::Linux, "natives-linux".to_string()),
        ],
        vec![],
    );
    assert_eq!(lib.classifier(OsName::Linux), Some(&"natives-windows".to_string()));
    assert_eq!(lib.native(OsName::Linux), Some(&file("lib-windows.jar")));
    assert_eq!(lib.classifier(OsName::Windows), None);
}

#[test]
fn release_kinds_are_ordered_as_declared() {
    assert!(ReleaseKind::Snapshot < ReleaseKind::Release);
    assert!(ReleaseKind::Release < ReleaseKind::OldBeta);
    assert!(ReleaseKind::OldBeta < ReleaseKind::OldAlpha);
}
