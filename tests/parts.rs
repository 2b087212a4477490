use wim_parser::classify::{arch_from_lowered, arch_label_for_code, version_from_lowered};
use wim_parser::summary::{editions_from_lowered, primary_of, total_of};

fn chars(s: &str) -> Vec<char> {
    s.chars().collect()
}

#[test]
fn version_rules_on_lowered_text() {
    assert_eq!(
        version_from_lowered(&chars("windows server 2019 pro")),
        Some("Windows Server 2019".to_string())
    );
    assert_eq!(
        version_from_lowered(&chars("windows 11 and windows 10")),
        Some("Windows 11".to_string())
    );
    assert_eq!(version_from_lowered(&chars("Windows 10")), None);
    assert_eq!(version_from_lowered(&chars("")), None);
}

#[test]
fn architecture_rules_on_lowered_text() {
    assert_eq!(arch_from_lowered(&chars("amd64")), Some("x64".to_string()));
    assert_eq!(arch_from_lowered(&chars("arm64 x86")), Some("x86".to_string()));
    assert_eq!(arch_from_lowered(&chars("arm64")), Some("ARM64".to_string()));
    assert_eq!(arch_from_lowered(&chars("arm")), None);
    assert_eq!(arch_label_for_code(&chars("12")), Some("ARM64".to_string()));
    assert_eq!(arch_label_for_code(&chars("1")), None);
    assert_eq!(arch_label_for_code(&chars(" 9")), None);
}

#[test]
fn primary_label_ties_go_to_first_seen() {
    let labels = vec![
        None,
        Some("b".to_string()),
        Some("a".to_string()),
        Some("a".to_string()),
        Some("b".to_string()),
    ];
    assert_eq!(primary_of(&labels), Some("b".to_string()));
    let labels = vec![Some("b".to_string()), Some("a".to_string()), Some("a".to_string())];
    assert_eq!(primary_of(&labels), Some("a".to_string()));
    assert_eq!(primary_of(&[None, None]), None);
    assert_eq!(primary_of(&[]), None);
}

#[test]
fn editions_one_per_name_first_seen_first() {
    let names = vec![
        chars("windows 11 pro"),
        chars("windows 11 pro"),
        chars("windows 11 home"),
        chars("professional home"),
        chars("enterprise"),
        chars("nothing"),
        chars("education"),
    ];
    assert_eq!(
        editions_from_lowered(&names),
        vec![
            "Pro".to_string(),
            "Home".to_string(),
            "Enterprise".to_string(),
            "Education".to_string()
        ]
    );
    assert!(editions_from_lowered(&[chars("Pro")]).is_empty());
    assert_eq!(
        editions_from_lowered(&[chars("windows 11 pro education"), chars("home enterprise")]),
        vec![
            "Pro".to_string(),
            "Education".to_string(),
            "Home".to_string(),
            "Enterprise".to_string()
        ]
    );
}

#[test]
fn total_wraps_at_64_bits() {
    assert_eq!(total_of(&[1, 2, 3]), 6);
    assert_eq!(total_of(&[]), 0);
    assert_eq!(total_of(&[u64::MAX, 2]), 1);
}
