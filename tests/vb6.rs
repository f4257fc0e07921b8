use std::path::PathBuf;
use yart::vb6::{
    extract_project, is_project_line, process_vbg_file_contents, project_reference_segments,
    set_vbp_version,
};
use yart::SemVer;

#[test]
fn vb6_test_parse_vbg_file() {
    let input = r"
        VBGROUP 5.0
        StartupProject=Server\RTFChatServer.vbp
        Project=Client\RTFChat.vbp
        Project=Shared\RTFChatShared.vbp
        ";
    let vbg_path = PathBuf::from("test/test.vbg");
    let actual = process_vbg_file_contents(vbg_path, input);
    let expected = vec![
        PathBuf::from("test/Server/RTFChatServer.vbp"),
        PathBuf::from("test/Client/RTFChat.vbp"),
        PathBuf::from("test/Shared/RTFChatShared.vbp"),
    ];
    assert_eq!(expected, actual);
}

#[test]
fn vb6_test_set_ver() {
    let input = r"
Type=Exe
MajorVer=1
MinorVer=0
RevisionVer=0

NoAliasing=0
";
    let expected = r"
Type=Exe
MajorVer=2
MinorVer=3
RevisionVer=4

NoAliasing=0
"
    .replace("\n", "\r\n");
    let actual = set_vbp_version(input, SemVer::new(2, 3, 4));
    assert_eq!(expected, actual);
}

#[test]
fn vbg_test_parse_vbg_file() {
    let input = r"
        VBGROUP 5.0
        StartupProject=Server\RTFChatServer.vbp
        Project=Client\RTFChat.vbp
        Project=Shared\RTFChatShared.vbp
        ";
    let vbg_path = PathBuf::from("test/test.vbg");
    let actual = process_vbg_file_contents(vbg_path, input);
    let expected = vec![
        PathBuf::from("test/Server/RTFChatServer.vbp"),
        PathBuf::from("test/Client/RTFChat.vbp"),
        PathBuf::from("test/Shared/RTFChatShared.vbp"),
    ];
    assert_eq!(expected, actual);
}

#[test]
fn vbg_test_set_ver() {
    let input = r"
Type=Exe
MajorVer=1
MinorVer=0
RevisionVer=0

NoAliasing=0
";
    let expected = r"
Type=Exe
MajorVer=2
MinorVer=3
RevisionVer=4

NoAliasing=0
"
    .replace("\n", "\r\n");
    let actual = set_vbp_version(input, SemVer::new(2, 3, 4));
    assert_eq!(expected, actual);
}

#[test]
fn project_file_versions_with_crlf_input() {
    let input = "MajorVer=1\r\nMinorVer=0\r\nRevisionVer=0\r\n";
    assert_eq!(
        set_vbp_version(input, SemVer::new(2, 3, 4)),
        "MajorVer=2\r\nMinorVer=3\r\nRevisionVer=4\r\n"
    );
}

#[test]
fn project_file_properties_ignore_ascii_case() {
    let input = "majorver=1\nMAJORVER2=5\n=MajorVer\nRevisionVer=0=0";
    assert_eq!(
        set_vbp_version(input, SemVer::new(7, 8, 9)),
        "majorver=7\r\nMAJORVER2=5\r\n=MajorVer\r\nRevisionVer=9\r\n"
    );
}

#[test]
fn reference_expansion_converts_backslashes() {
    let actual = process_vbg_file_contents(PathBuf::from("dir/group.vbg"), "Project=Sub\\Thing.vbp\n");
    assert_eq!(actual, vec![PathBuf::from("dir/Sub/Thing.vbp")]);
    let segments = project_reference_segments("x\n  startupproject=A\\B\\c.vbp  \nProjectX=1\n");
    assert_eq!(segments, vec![vec!["A".to_string(), "B".to_string(), "c.vbp".to_string()]]);
}

#[test]
fn project_lines() {
    assert!(is_project_line("Project=a.vbp"));
    assert!(is_project_line("STARTUPproject=a.vbp"));
    assert!(!is_project_line("Projects=a.vbp"));
    assert!(!is_project_line(" Project=a.vbp"));
    assert_eq!(extract_project("Project=a=b"), "a=b");
}
