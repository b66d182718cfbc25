use audiacore::host_native::{
    display_target, path_components, relative_target, NativeHostError, NativeProcessError,
};

fn strings(v: &[&str]) -> Vec<String> {
    v.iter().map(|s| s.to_string()).collect()
}

#[test]
fn components_drop_empty_and_current_segments() {
    assert_eq!(path_components("/a//b/./c/"), strings(&["a", "b", "c"]));
    assert_eq!(path_components("./x/../y"), strings(&["x", "..", "y"]));
    assert!(path_components("/").is_empty());
}

#[test]
fn relative_paths_are_normalized_beneath_the_root() {
    assert_eq!(
        relative_target("/root", "a/./b/../c").unwrap(),
        strings(&["a", "c"])
    );
    assert_eq!(relative_target("/root", "state.bin").unwrap(), strings(&["state.bin"]));
    assert!(relative_target("/root", ".").unwrap().is_empty());
}

#[test]
fn absolute_paths_must_lie_beneath_the_root() {
    assert_eq!(
        relative_target("/srv/app", "/srv/app/conf/state.bin").unwrap(),
        strings(&["conf", "state.bin"])
    );
    let outside = relative_target("/srv/app", "/srv/other/state.bin").unwrap_err();
    assert!(matches!(
        outside,
        NativeHostError::OutsideAuthority { ref root, ref path }
            if root == "/srv/app" && path == "/srv/other/state.bin"
    ));
    assert!(relative_target("/srv/app", "/srv").is_err());
}

#[test]
fn parent_components_may_not_climb_above_the_root() {
    assert!(matches!(
        relative_target("/root", "../outside/state.bin").unwrap_err(),
        NativeHostError::OutsideAuthority { .. }
    ));
    assert!(matches!(
        relative_target("/root", "a/../../b").unwrap_err(),
        NativeHostError::OutsideAuthority { .. }
    ));
    assert_eq!(relative_target("/root", "a/../b").unwrap(), strings(&["b"]));
}

#[test]
fn display_joins_root_and_relative_components() {
    assert_eq!(display_target("/root", &strings(&["a", "b"])), "/root/a/b");
    assert_eq!(display_target("/", &strings(&["a"])), "/a");
    assert_eq!(display_target("/root", &[]), "/root/");
}

#[test]
fn host_error_messages_quote_paths() {
    let error = NativeHostError::OutsideAuthority {
        root: "/root".to_string(),
        path: "../x".to_string(),
    };
    assert_eq!(
        error.message(),
        "file target \"../x\" is outside authority root \"/root\""
    );
    assert!(error.source_error().is_none());
    let read = NativeHostError::ReadFile {
        path: "/root/a\"b".to_string(),
        source: std::io::Error::new(std::io::ErrorKind::Other, "boom"),
    };
    assert_eq!(read.message(), "cannot read file \"/root/a\\\"b\"");
    assert!(read.source_error().is_some());
    let symlink = NativeHostError::SymbolicLinkWriteTarget("/r/l".to_string());
    assert_eq!(
        symlink.message(),
        format!("managed write target is a symbolic link: {:?}", "/r/l")
    );
}

#[test]
fn process_error_messages_name_program_or_pid() {
    let error = NativeProcessError::ProgramNotAuthorized("/bin/sh".to_string());
    assert_eq!(error.message(), "process program is not authorized: \"/bin/sh\"");
    let wait = NativeProcessError::Wait {
        pid: 42,
        source: std::io::Error::new(std::io::ErrorKind::Other, "boom"),
    };
    assert_eq!(wait.message(), "cannot wait for process 42");
}

#[test]
fn quoted_paths_escape_control_characters_as_debug_does() {
    for path in ["a\tb", "line\nbreak\r", "nul\0x", "bell\u{7}esc\u{1b}del\u{7f}", "q\"b\\s", "caf\u{e9}"] {
        let error = NativeHostError::MissingFileName(path.to_string());
        assert_eq!(
            error.message(),
            format!("file target has no file name: {:?}", path)
        );
    }
}
