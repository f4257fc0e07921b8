use std::str::FromStr;
use yart::sem_ver::NumberError;
use yart::{SemVer, SemVerComponent, SemVerComponentSet, SemVerParseError};

#[test]
fn test_sem_ver_bump() {
    assert_eq!(
        SemVer::new(1, 0, 0).bump(SemVerComponent::Major),
        SemVer::new(2, 0, 0)
    );
    assert_eq!(
        SemVer::new(1, 2, 0).bump(SemVerComponent::Major),
        SemVer::new(2, 0, 0)
    );
    assert_eq!(
        SemVer::new(1, 2, 3).bump(SemVerComponent::Major),
        SemVer::new(2, 0, 0)
    );
    assert_eq!(
        SemVer::new(1, 0, 0).bump(SemVerComponent::Minor),
        SemVer::new(1, 1, 0)
    );
    assert_eq!(
        SemVer::new(1, 2, 0).bump(SemVerComponent::Minor),
        SemVer::new(1, 3, 0)
    );
    assert_eq!(
        SemVer::new(1, 2, 3).bump(SemVerComponent::Minor),
        SemVer::new(1, 3, 0)
    );
    assert_eq!(
        SemVer::new(1, 0, 0).bump(SemVerComponent::Patch),
        SemVer::new(1, 0, 1)
    );
    assert_eq!(
        SemVer::new(1, 2, 0).bump(SemVerComponent::Patch),
        SemVer::new(1, 2, 1)
    );
    assert_eq!(
        SemVer::new(1, 2, 3).bump(SemVerComponent::Patch),
        SemVer::new(1, 2, 4)
    );
}

#[test]
fn test_sem_ver_display() {
    assert_eq!("1.2.3", SemVer::new(1, 2, 3).to_string());
}

#[test]
fn test_sem_ver_comparison() {
    assert!(SemVer::new(1, 2, 3) < SemVer::new(1, 2, 4));
    assert!(SemVer::new(1, 2, 3) < SemVer::new(2, 0, 0));
    assert!(SemVer::new(3, 0, 0) > SemVer::new(2, 0, 0));
    assert!(SemVer::new(3, 1, 0) > SemVer::new(3, 0, 0));
    assert!(SemVer::new(3, 1, 1) > SemVer::new(3, 1, 0));
    assert_eq!(SemVer::new(3, 1, 1), SemVer::new(3, 1, 1));
}

#[test]
fn test_sem_ver_parse() {
    assert_eq!(SemVer::new(1, 2, 3), SemVer::from_str("1.2.3").unwrap());
    assert!(matches!(
        SemVer::from_str(""),
        Err(SemVerParseError::ParseIntError(_))
    ));
    assert!(matches!(
        SemVer::from_str("v1.2.3"),
        Err(SemVerParseError::ParseIntError(_))
    ));
    assert!(matches!(
        SemVer::from_str("2.3"),
        Err(SemVerParseError::IllegalComponentCount(2))
    ));
}

#[test]
fn parse_round_trips_the_text_form() {
    for v in [
        SemVer::new(0, 0, 0),
        SemVer::new(1, 2, 3),
        SemVer::new(10, 200, 3000),
        SemVer::new(65535, 65535, 65535),
    ] {
        assert_eq!(SemVer::parse(&v.to_string()), Ok(v));
    }
}

#[test]
fn to_string_of_large_components() {
    assert_eq!(SemVer::new(65535, 0, 10).to_string(), "65535.0.10");
}

#[test]
fn parse_errors_name_the_first_bad_part() {
    assert_eq!(
        SemVer::parse(""),
        Err(SemVerParseError::ParseIntError(NumberError::Empty))
    );
    assert_eq!(
        SemVer::parse("1.x.3"),
        Err(SemVerParseError::ParseIntError(NumberError::InvalidDigit))
    );
    assert_eq!(
        SemVer::parse("1.70000.x"),
        Err(SemVerParseError::ParseIntError(NumberError::PosOverflow))
    );
    assert_eq!(
        SemVer::parse("1..3"),
        Err(SemVerParseError::ParseIntError(NumberError::Empty))
    );
    assert_eq!(
        SemVer::parse("+"),
        Err(SemVerParseError::ParseIntError(NumberError::InvalidDigit))
    );
    assert_eq!(
        SemVer::parse("1.2.3.4"),
        Err(SemVerParseError::IllegalComponentCount(4))
    );
    assert_eq!(SemVer::parse("+1.02.3"), Ok(SemVer::new(1, 2, 3)));
}

#[test]
fn number_parsing_agrees_with_std() {
    for s in ["", "0", "+", "-1", "+7", "65535", "65536", "0065535", "99999x", "7x99999", " 1", "1 "] {
        let chars: Vec<char> = s.chars().collect();
        let ours = yart::sem_ver::parse_u16(&chars);
        match u16::from_str(s) {
            Ok(v) => assert_eq!(ours, Ok(v), "{}", s),
            Err(e) => {
                let kind = match e.kind() {
                    std::num::IntErrorKind::Empty => NumberError::Empty,
                    std::num::IntErrorKind::InvalidDigit => NumberError::InvalidDigit,
                    _ => NumberError::PosOverflow,
                };
                assert_eq!(ours, Err(kind), "{}", s);
            }
        }
    }
}

#[test]
fn bump_is_greater_and_resets_lower_components() {
    let v = SemVer::new(1, 2, 3);
    assert_eq!(v.bump(SemVerComponent::Minor), SemVer::new(1, 3, 0));
    for c in [SemVerComponent::Major, SemVerComponent::Minor, SemVerComponent::Patch] {
        assert!(v.bump(c) > v);
    }
}

#[test]
fn get_component_reads_each_part() {
    let v = SemVer::new(4, 5, 6);
    assert_eq!(v.get_component(SemVerComponent::Major), 4);
    assert_eq!(v.get_component(SemVerComponent::Minor), 5);
    assert_eq!(v.get_component(SemVerComponent::Patch), 6);
}

#[test]
fn component_names() {
    assert_eq!(SemVerComponent::from_str("minor"), Ok(SemVerComponent::Minor));
    assert_eq!(SemVerComponent::from_str("Minor"), Err(()));
}

#[test]
fn component_set_missing_is_a_snapshot() {
    let mut set = SemVerComponentSet::new();
    set.insert(SemVerComponent::Minor);
    set.insert(SemVerComponent::Minor);
    let missing = set.missing();
    set.insert(SemVerComponent::Major);
    assert_eq!(missing, vec![SemVerComponent::Major, SemVerComponent::Patch]);
    assert!(set.contains(SemVerComponent::Major));
    assert!(!set.contains(SemVerComponent::Patch));
    assert_eq!(
        SemVerComponentSet::all(),
        vec![SemVerComponent::Major, SemVerComponent::Minor, SemVerComponent::Patch]
    );
}
