use piperdesk::audio::{encoder_outcome, generate_output_path, plan_transcode, sanitize_title, AudioFormat, TranscodeStep};

#[test]
fn output_path_example() {
    assert_eq!(
        generate_output_path("/data", "Chapter 1: Intro!", AudioFormat::Mp3),
        "/data/Chapter_1_Intro.mp3"
    );
}

#[test]
fn output_path_is_the_same_for_the_same_arguments() {
    let a = generate_output_path("dir", "A title", AudioFormat::Wav);
    let b = generate_output_path("dir", "A title", AudioFormat::Wav);
    assert_eq!(a, b);
    assert_eq!(a, "dir/A_title.wav");
}

#[test]
fn empty_title_gives_empty_stem() {
    assert_eq!(generate_output_path("out", "", AudioFormat::Wav), "out/.wav");
    assert_eq!(generate_output_path("out", "!!!", AudioFormat::Mp3), "out/.mp3");
    assert_eq!(sanitize_title("   "), "");
}

#[test]
fn sanitizing_trims_and_replaces_spaces() {
    assert_eq!(sanitize_title("  a b_c-d  "), "a_b_c-d");
    assert_eq!(sanitize_title("Héllo wörld?"), "Hllo_wrld");
    assert_eq!(sanitize_title("x  y"), "x__y");
}

#[test]
fn joining_directories() {
    assert_eq!(generate_output_path("", "a", AudioFormat::Wav), "a.wav");
    assert_eq!(generate_output_path("/d/", "a", AudioFormat::Wav), "/d/a.wav");
}

#[test]
fn native_format_needs_no_encoder() {
    match plan_transcode("/out/x.wav", AudioFormat::Wav) {
        TranscodeStep::Unchanged(p) => assert_eq!(p, "/out/x.wav"),
        _ => panic!("no encoder expected"),
    }
}

#[test]
fn mp3_runs_the_encoder() {
    match plan_transcode("/out/x.wav", AudioFormat::Mp3) {
        TranscodeStep::Encode { program, args, output } => {
            assert_eq!(program, "ffmpeg");
            assert_eq!(args, vec!["-y", "-i", "/out/x.wav", "/out/x.mp3"]);
            assert_eq!(output, "/out/x.mp3");
        }
        _ => panic!("encoder expected"),
    }
    match plan_transcode("/out/x.mp3", AudioFormat::Mp3) {
        TranscodeStep::Unchanged(p) => assert_eq!(p, "/out/x.mp3"),
        _ => panic!("same path needs no encoder"),
    }
}

#[test]
fn encoder_failure_reports_status() {
    assert_eq!(encoder_outcome("a.mp3".to_string(), true, "0"), Ok("a.mp3".to_string()));
    assert_eq!(
        encoder_outcome("a.mp3".to_string(), false, "exit status: 1"),
        Err("ffmpeg exited with status exit status: 1".to_string())
    );
}
