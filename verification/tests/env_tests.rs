use waygaps::commands::shell_command;
use waygaps::heap::heap_growth;
use waygaps::log::{after_write, log, Filter, WriteOutcome, WriteStep};
use waygaps::utils::{
    compositor_path, config_path, default_config_path, getenv, is_output_match, is_rawfd_range,
    needs_runtime_dir, next_step, parse_args, parse_cstr_to_rawfd, poll_action, read_plan,
    socket_target, ArgError, Last, PollAction, ReadPlan, SocketTarget, Step,
};

fn bytes(text: &str) -> Vec<u8> {
    text.as_bytes().to_vec()
}

fn all_bytes(texts: &[&str]) -> Vec<Vec<u8>> {
    texts.iter().map(|text| bytes(text)).collect()
}

#[test]
fn variables_are_found() {
    let environ = all_bytes(&["HOME=/home/me", "PATH=/bin", "EMPTY=", "HOME=/other"]);
    assert_eq!(getenv(&environ, b"HOME"), Some(bytes("/home/me")));
    assert_eq!(getenv(&environ, b"PATH"), Some(bytes("/bin")));
    assert_eq!(getenv(&environ, b"EMPTY"), Some(bytes("")));
    assert_eq!(getenv(&environ, b"WAYLAND_DISPLAY"), None);
    assert_eq!(getenv(&Vec::new(), b"HOME"), None);
}

#[test]
fn longer_names_do_not_match() {
    let environ = all_bytes(&["HOMEDIR=/x", "HOME", "HOMEPAGE=x", "HOME=/home/u", "HOME=/y"]);
    assert_eq!(getenv(&environ, b"HOME"), Some(bytes("/home/u")));
    assert_eq!(getenv(&environ, b"HOMEDIR"), Some(bytes("/x")));
    assert_eq!(getenv(&environ, b"HOM"), None);
    assert_eq!(getenv(&all_bytes(&["HOME"]), b"HOME"), None);
    assert_eq!(getenv(&all_bytes(&["HOME=a=b"]), b"HOME"), Some(bytes("a=b")));
}

#[test]
fn file_descriptors() {
    assert_eq!(parse_cstr_to_rawfd(b"12"), Some(12));
    assert_eq!(parse_cstr_to_rawfd(b"007"), Some(7));
    assert_eq!(parse_cstr_to_rawfd(b"2147483647"), Some(2147483647));
    assert_eq!(parse_cstr_to_rawfd(b""), Some(0));
    assert_eq!(parse_cstr_to_rawfd(b"1x"), None);
    assert_eq!(parse_cstr_to_rawfd(b"-1"), None);
    assert_eq!(parse_cstr_to_rawfd(b"\xff"), None);
    assert!(is_rawfd_range(b"2147483647"));
    assert!(!is_rawfd_range(b"2147483648"));
    assert!(is_rawfd_range(b"1x99999999999"));
    assert!(!is_rawfd_range(b"99999999999x"));
}

#[test]
fn socket_paths() {
    assert_eq!(
        compositor_path(Some(bytes("wayland-1")), Some(bytes("/run/user/1000")), 7),
        bytes("/run/user/1000/wayland-1")
    );
    assert_eq!(
        compositor_path(Some(bytes("/tmp/sock")), Some(bytes("/run/user/1000")), 7),
        bytes("/tmp/sock")
    );
    assert_eq!(compositor_path(None, Some(bytes("/x")), 7), bytes("/x/wayland-0"));
    assert_eq!(compositor_path(Some(bytes("")), Some(bytes("/x")), 7), bytes("/x/"));
}

#[test]
fn socket_paths_without_a_runtime_directory() {
    assert_eq!(compositor_path(None, None, 1000), bytes("/run/user/1000/wayland-0"));
    assert_eq!(compositor_path(None, None, 0), bytes("/run/user/0/wayland-0"));
    assert_eq!(
        compositor_path(Some(bytes("w")), None, u32::MAX),
        bytes("/run/user/4294967295/w")
    );
}

#[test]
fn passed_sockets_come_first() {
    assert_eq!(
        socket_target(Some(bytes("5")), Some(bytes("wayland-1")), None, 0),
        Some(SocketTarget::Fd(5))
    );
    assert_eq!(socket_target(Some(bytes("five")), Some(bytes("wayland-1")), None, 0), None);
    assert_eq!(
        socket_target(None, Some(bytes("wayland-1")), Some(bytes("/r")), 0),
        Some(SocketTarget::Path(bytes("/r/wayland-1")))
    );
}

#[test]
fn config_paths() {
    assert_eq!(
        default_config_path(Some(bytes("/home/me"))),
        bytes("/home/me/.config/waygaps/config.toml\0")
    );
    assert_eq!(default_config_path(None), bytes("./.config/waygaps/config.toml\0"));
}

#[test]
fn a_given_config_path_comes_first() {
    assert_eq!(config_path(Some(bytes("my.toml")), Some(bytes("/home/me"))), bytes("my.toml\0"));
    assert_eq!(
        config_path(None, Some(bytes("/home/me"))),
        bytes("/home/me/.config/waygaps/config.toml\0")
    );
    assert_eq!(config_path(None, None), bytes("./.config/waygaps/config.toml\0"));
}

#[test]
fn short_and_long_flags_ask_for_the_same() {
    let forms = [
        vec!["-c", "a", "-p"],
        vec!["--config", "a", "-p"],
        vec!["-c", "a", "--preview"],
        vec!["--config", "a", "--preview"],
    ];
    for form in forms {
        let args = parse_args(&all_bytes(&form)).unwrap();
        assert_eq!((args.config_path, args.preview), (Some(1), true));
    }
}

#[test]
fn large_configs_are_mapped() {
    assert_eq!(read_plan(0), ReadPlan::Buffer);
    assert_eq!(read_plan(4096), ReadPlan::Buffer);
    assert_eq!(read_plan(4097), ReadPlan::Mmap);
}

#[test]
fn arguments() {
    let none = parse_args(&all_bytes(&[])).unwrap();
    assert_eq!((none.config_path, none.preview, none.print_example_config), (None, false, false));
    let short = parse_args(&all_bytes(&["-p", "-c", "my.toml"])).unwrap();
    assert_eq!((short.config_path, short.preview), (Some(2), true));
    let long = parse_args(&all_bytes(&["--config", "a", "--preview", "--config", "b"])).unwrap();
    assert_eq!((long.config_path, long.preview), (Some(4), true));
    let example = parse_args(&all_bytes(&["--print-example-config"])).unwrap();
    assert!(example.print_example_config);
    let path = parse_args(&all_bytes(&["-c", "-p"])).unwrap();
    assert_eq!((path.config_path, path.preview), (Some(1), false));
}

#[test]
fn wrong_arguments() {
    assert!(matches!(parse_args(&all_bytes(&["-p", "-c"])), Err(ArgError::MissingPath)));
    assert!(matches!(parse_args(&all_bytes(&["-p", "-x"])), Err(ArgError::Unknown(1))));
    assert!(matches!(parse_args(&all_bytes(&[""])), Err(ArgError::Unknown(0))));
}

#[test]
fn outputs_match_by_name_or_description() {
    let wanted = Some("eDP".to_string());
    assert!(is_output_match(&wanted, "eDP-1", "Built-in display"));
    assert!(is_output_match(&wanted, "", "the eDP panel"));
    assert!(!is_output_match(&wanted, "HDMI-A-1", "Some monitor"));
    assert!(!is_output_match(&wanted, "edp-1", ""));
    assert!(is_output_match(&None, "HDMI-A-1", ""));
    assert!(is_output_match(&Some(String::new()), "", ""));
    assert!(is_output_match(&Some("HDMI-A-1".to_string()), "HDMI-A-1", ""));
}

#[test]
fn poll_actions() {
    assert_eq!(poll_action(false, 0), PollAction::Receive);
    assert_eq!(poll_action(true, 0), PollAction::ReportError);
    assert_eq!(poll_action(false, 1), PollAction::ReportUnexpected);
}

#[test]
fn the_program_ends_when_it_has_to() {
    for last in [Last::Started, Last::Handled, Last::Interrupted, Last::WouldBlock] {
        assert_eq!(next_step(false, last), Step::Wait);
        assert_eq!(next_step(true, last), Step::Exit(0));
    }
    for exit in [false, true] {
        assert_eq!(next_step(exit, Last::Ready), Step::Handle);
        assert_eq!(next_step(exit, Last::Failed), Step::Fail);
    }
}

#[test]
fn the_runtime_directory_is_not_always_needed() {
    assert!(needs_runtime_dir(&None));
    assert!(needs_runtime_dir(&Some(bytes("wayland-1"))));
    assert!(needs_runtime_dir(&Some(bytes(""))));
    assert!(!needs_runtime_dir(&Some(bytes("/tmp/sock"))));
}

#[test]
fn commands_run_in_a_shell() {
    assert_eq!(
        shell_command("notify-send 'left click'"),
        vec!["env", "sh", "-c", "notify-send 'left click'"]
    );
}

#[test]
fn log_lines() {
    assert_eq!(log(Filter::Info, Filter::Info, false, "pid: 7"), Some("[INFO]  pid: 7\n".into()));
    assert_eq!(log(Filter::Debug, Filter::Info, false, "x"), None);
    assert_eq!(log(Filter::Warn, Filter::Fatal, true, "x"), None);
    assert_eq!(
        log(Filter::Fatal, Filter::Debug, true, "x"),
        Some("\x1b[30;47m[FATAL]\x1b[0m x\n".into())
    );
    assert_eq!(
        log(Filter::Error, Filter::Debug, true, "x"),
        Some("\x1b[31m[ERROR]\x1b[0m x\n".into())
    );
    assert_eq!(
        log(Filter::Warn, Filter::Debug, true, "x"),
        Some("\x1b[33m[WARN]\x1b[0m  x\n".into())
    );
    assert_eq!(
        log(Filter::Info, Filter::Debug, true, "x"),
        Some("\x1b[32m[INFO]\x1b[0m  x\n".into())
    );
    assert_eq!(
        log(Filter::Debug, Filter::Debug, true, "x"),
        Some("\x1b[36m[DEBUG]\x1b[0m x\n".into())
    );
}

#[test]
fn plain_log_tags_align() {
    for filter in [Filter::Debug, Filter::Info, Filter::Warn, Filter::Error, Filter::Fatal] {
        assert_eq!(filter.tag(false).len(), 8);
    }
}

#[test]
fn writing_goes_on_until_all_is_written() {
    assert_eq!(after_write(10, 0, WriteOutcome::Written(10)), WriteStep::Done);
    assert_eq!(after_write(10, 0, WriteOutcome::Written(4)), WriteStep::Continue(4));
    assert_eq!(after_write(10, 4, WriteOutcome::Interrupted), WriteStep::Continue(4));
    assert_eq!(after_write(10, 4, WriteOutcome::Written(6)), WriteStep::Done);
    assert_eq!(after_write(10, 4, WriteOutcome::Failed), WriteStep::Fail);
}

#[test]
fn the_heap_grows_in_chunks() {
    assert_eq!(heap_growth(0), 8192);
    assert_eq!(heap_growth(8192 - 2048), 8192);
    assert_eq!(heap_growth(8192 - 2047), 16384);
    assert_eq!(heap_growth(7000), 16384);
    for size in [1usize, 100, 7000, 8000, 9000, 100_000, 1 << 30] {
        assert_eq!(heap_growth(size), (size + 2048).next_multiple_of(8192));
    }
}
