use fpga_console::programming::{
    image_file, judge_programming, programming_args, sof_file_path, verdict, ImageSelector,
    ProgramFailure,
};
use fpga_console::supervisor::{command_for, picture_for, Choice, SupervisorState};

const GOOD: &[u8] = b"Info: Started Programmer operation\nInfo (209011): Successfully performed operation(s)\nInfo: Quartus Prime Programmer was successful. 0 errors, 0 warnings\n";

#[test]
fn successful_run_is_accepted() {
    let ok = b"Info: programmer WAS SUCCESSFUL\n";
    assert!(judge_programming(true, ok, b"").is_ok());
}

#[test]
fn exit_failure_flips_result() {
    let ok = b"Programmer was successful\n";
    match judge_programming(false, ok, b"warn\xff") {
        Err(ProgramFailure::ExitStatus { stdout, stderr }) => {
            assert_eq!(stdout, "Programmer was successful\n");
            assert_eq!(stderr, "warn\u{fffd}");
        }
        other => panic!("unexpected {:?}", other),
    }
}

#[test]
fn missing_success_marker_flips_result() {
    match judge_programming(true, b"done\n", b"") {
        Err(ProgramFailure::Output { stdout, stderr }) => {
            assert_eq!(stdout, "done\n");
            assert_eq!(stderr, "");
        }
        other => panic!("unexpected {:?}", other),
    }
}

#[test]
fn error_in_stdout_flips_result() {
    assert!(matches!(
        judge_programming(true, GOOD, b""),
        Err(ProgramFailure::Output { .. })
    ));
    assert!(matches!(
        judge_programming(true, b"Programmer was successful\nERROR: cable lost\n", b""),
        Err(ProgramFailure::Output { .. })
    ));
}

#[test]
fn error_in_stderr_flips_result() {
    assert!(matches!(
        judge_programming(true, b"Programmer was successful\n", b"Error (213013): busy\n"),
        Err(ProgramFailure::Output { .. })
    ));
}

#[test]
fn verdict_needs_every_check() {
    assert!(verdict(true, true, false, false));
    assert!(!verdict(false, true, false, false));
    assert!(!verdict(true, false, false, false));
    assert!(!verdict(true, true, true, false));
    assert!(!verdict(true, true, false, true));
}

#[test]
fn programming_arguments() {
    let path = sof_file_path(image_file(ImageSelector::ColourBars));
    assert_eq!(path, "sofs/tpg_colour_bars.sof");
    assert_eq!(
        programming_args("USB-Blaster [1-1]", &path),
        vec![
            "--cable=USB-Blaster [1-1]".to_string(),
            "--mode=JTAG".to_string(),
            "-o".to_string(),
            "p;sofs/tpg_colour_bars.sof".to_string(),
        ]
    );
    assert_eq!(image_file(ImageSelector::GrayscaleBars), "tpg_grayscale_bars.sof");
}

#[test]
fn supervisor_lifecycle() {
    let s = SupervisorState::Unstarted;
    assert_eq!(s.after_spawn(false), SupervisorState::Unstarted);
    let s = s.after_spawn(true);
    assert_eq!(s, SupervisorState::Running);
    assert!(s.accepts_commands());
    let s = s.after_drain_exit();
    assert_eq!(s, SupervisorState::Stopped);
    assert!(!s.accepts_commands());
    assert_eq!(s.after_spawn(true), SupervisorState::Stopped);
}

#[test]
fn choices_map_to_commands_and_pictures() {
    assert_eq!(command_for(Choice::Original), "4");
    assert_eq!(command_for(Choice::Malicious), "3");
    assert_eq!(picture_for(Choice::Original), "images/trusted.png");
    assert_eq!(picture_for(Choice::Malicious), "images/malware.png");
}
