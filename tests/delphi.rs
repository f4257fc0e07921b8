use yart::delphi::process_str;
use yart::SemVer;

    #[test]
    fn all_elements_present() {
        let input = r#"<?xml version="1.0" encoding="UTF-8"?>
<CONFIG>
  <ProjectOptions>
    <Version Value="11"/>
    <i18n>
      <EnableI18N LFM="False"/>
    </i18n>
    <VersionInfo>
      <UseVersionInfo Value="True"/>
      <AutoIncrementBuild Value="True"/>
      <MajorVersionNr Value="1"/>
      <MinorVersionNr Value="1"/>
      <RevisionNr Value="2"/>
      <BuildNr Value="2"/>
    </VersionInfo>
  </ProjectOptions>
</CONFIG>
    "#;
        let expected = r#"<?xml version="1.0" encoding="UTF-8"?>
<CONFIG>
  <ProjectOptions>
    <Version Value="11" />
    <i18n>
      <EnableI18N LFM="False" />
    </i18n>
    <VersionInfo>
      <UseVersionInfo Value="True" />
      <AutoIncrementBuild Value="True" />
      <MajorVersionNr Value="3" />
      <MinorVersionNr Value="4" />
      <RevisionNr Value="5" />
      <BuildNr Value="2" />
    </VersionInfo>
  </ProjectOptions>
</CONFIG>
"#;
        let result = process_str(input, SemVer::new(3, 4, 5)).unwrap();
        assert_eq!(result, expected);
    }

    #[test]
    fn adds_missing_value_attribute() {
        let input = r#"<?xml version="1.0" encoding="UTF-8"?>
<CONFIG>
  <ProjectOptions>
    <VersionInfo>
      <MajorVersionNr Oops="1"/>
    </VersionInfo>
  </ProjectOptions>
</CONFIG>
    "#;
        let expected = r#"<?xml version="1.0" encoding="UTF-8"?>
<CONFIG>
  <ProjectOptions>
    <VersionInfo>
      <MajorVersionNr Oops="1" Value="2" />
      <MinorVersionNr Value="3" />
      <RevisionNr Value="4" />
    </VersionInfo>
  </ProjectOptions>
</CONFIG>
"#;
        let result = process_str(input, SemVer::new(2, 3, 4)).unwrap();
        assert_eq!(result, expected);
    }

    #[test]
    fn does_not_affect_elements_outside_version_info() {
        let input = r#"<?xml version="1.0" encoding="UTF-8"?>
<CONFIG>
  <ProjectOptions>
    <MajorVersionNr Oops="1" />
  </ProjectOptions>
</CONFIG>
"#;
        let result = process_str(input, SemVer::new(2, 3, 4)).unwrap();
        assert_eq!(result, input);
    }
