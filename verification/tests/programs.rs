use video_sniffer::ffmpeg::{choose_tool, ffmpeg_candidates, remuxed_file_name, Tool};

fn shown(tools: &[Tool]) -> Vec<String> {
    tools
        .iter()
        .map(|tool| match tool {
            Tool::File(path) => path.clone(),
            Tool::OnPath(name) => format!("PATH {name}"),
        })
        .collect()
}

#[test]
fn the_program_is_looked_for_in_order() {
    let tools = ffmpeg_candidates(Some("D:\\f.exe"), Some("C:\\app"), Some("C:\\src"), '\\');
    assert_eq!(
        shown(&tools),
        vec![
            "D:\\f.exe",
            "C:\\app\\ffmpeg.exe",
            "C:\\app\\bin\\ffmpeg.exe",
            "C:\\src\\third_party\\ffmpeg\\ffmpeg.exe",
            "C:\\app\\third_party\\ffmpeg\\ffmpeg.exe",
            "PATH ffmpeg",
        ]
    );
    assert_eq!(shown(&ffmpeg_candidates(Some("  "), None, None, '/')), vec!["PATH ffmpeg"]);
    assert_eq!(
        shown(&ffmpeg_candidates(None, None, Some("/src"), '/')),
        vec!["/src/third_party/ffmpeg/ffmpeg.exe", "PATH ffmpeg"]
    );
}

#[test]
fn the_first_program_there_is_taken() {
    let tools = ffmpeg_candidates(Some("/f"), Some("/app"), None, '/');
    assert_eq!(tools.len(), 5);
    let found = |places: &[usize]| (0..tools.len()).map(|i| places.contains(&i)).collect::<Vec<bool>>();
    assert_eq!(choose_tool(&tools, &found(&[0, 3])).as_deref(), Some("/f"));
    assert_eq!(choose_tool(&tools, &found(&[2, 4])).as_deref(), Some("/app/bin/ffmpeg.exe"));
    assert_eq!(choose_tool(&tools, &found(&[4])).as_deref(), Some("ffmpeg"));
    assert_eq!(choose_tool(&tools, &found(&[])), None);
}

#[test]
fn the_other_file_is_an_mp4_file() {
    assert_eq!(remuxed_file_name("Film.ts"), "Film.mp4");
    assert_eq!(remuxed_file_name("Show.TS"), "Show.mp4");
    assert_eq!(remuxed_file_name("a.b"), "a.b.mp4");
}
