use xettacast::format_backtrace;

#[test]
fn a_stack_without_frames_is_the_heading_alone() {
    assert_eq!(format_backtrace(&Vec::new()), "Call Stack:");
}

#[test]
fn each_frame_takes_a_line_of_its_own() {
    let frames = vec!["main".to_string(), "run".to_string(), "draw".to_string()];
    assert_eq!(format_backtrace(&frames), "Call Stack:\nmain\nrun\ndraw");
}
