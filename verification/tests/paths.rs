use griffr_common::buffer::{BlockingBuffer, BLOCKING_IO_BUFFER_BYTES};
use griffr_common::commit::sort_paths;
use griffr_common::event::{step_events, step_reports, ProgressPhase, TaskOutcome, WorkerEvent};
use griffr_common::files::{
    ancestors, classify_reuse_mode, existing_volume_probe, make_extract_staging_dir,
    make_partial_download_path, make_patch_work_path, make_temp_write_path, storage_volume_key,
    volume_temp_path, ReuseMode,
};
use griffr_common::number::{parse_number, parse_unsigned};
use griffr_common::ordered::{path_before, sorted_texts, text_before};
use griffr_common::patch::manifest::{
    manifest_path, parse_delete_files_entry, parse_delete_files_manifest, split_lines,
};
use griffr_common::path::FilePath;
use griffr_common::path_safety::parse_safe_relative_path;
use griffr_common::text::{ascii_lowercase, push_padded3, push_padded4, split_text, trim};
use griffr_common::verify::{build_issue, IssueKind, Observed};

fn path(text: &str) -> FilePath {
    FilePath::parse(text)
}

#[test]
fn nested_use_falls_back_without_panicking() {
    let mut slot = BlockingBuffer::new();
    let (mut outer, outer_kept) = slot.lend();
    assert_eq!(outer.len(), BLOCKING_IO_BUFFER_BYTES);
    outer[0] = 1;
    let (mut inner, inner_kept) = slot.lend();
    assert_eq!(inner.len(), BLOCKING_IO_BUFFER_BYTES);
    inner[0] = 2;
    assert_eq!(outer[0], 1);
    assert!(outer_kept);
    assert!(!inner_kept);
    slot.give_back(outer);
    let (again, again_kept) = slot.lend();
    assert!(again_kept);
    assert_eq!(again[0], 1);
}

#[test]
fn parse_delete_files_entry_accepts_relative_paths() {
    let parsed =
        parse_delete_files_entry("Endfield_Data/StreamingAssets/VFS/ABC/file.chk").unwrap();
    assert_eq!(
        parsed.map(|found| found.text()),
        Some("Endfield_Data/StreamingAssets/VFS/ABC/file.chk".to_string())
    );
}

#[test]
fn parse_delete_files_entry_rejects_escape_paths() {
    let err = parse_delete_files_entry("..\\outside.txt").unwrap_err();
    assert!(err.message().contains("unsupported path"));
}

#[test]
fn delete_lists_skip_blank_lines() {
    let parsed = parse_delete_files_manifest("a/b.bin\r\n\n   \nc.bin\n").unwrap();
    let texts: Vec<String> = parsed.iter().map(|found| found.text()).collect();
    assert_eq!(texts, vec!["a/b.bin", "c.bin"]);
    assert!(parse_delete_files_manifest("a.bin\n../b.bin\n").is_err());
    assert_eq!(split_lines("a\r\nb\n"), vec!["a", "b"]);
}

#[test]
fn listed_deletes_are_reported_one_by_one() {
    let reports = step_reports(
        ".",
        &vec!["Endfield_Data/Plugins/x86_64/libHAPI.dll".to_string()],
    );
    let seen: Vec<(String, usize, usize)> = reports
        .iter()
        .map(|report| (report.path.clone(), report.finished, report.total))
        .collect();
    assert_eq!(
        seen,
        vec![
            (".".to_string(), 0, 1),
            ("Endfield_Data/Plugins/x86_64/libHAPI.dll".to_string(), 1, 1),
        ]
    );
    assert_eq!(step_events(ProgressPhase::Delete, &reports[0]).len(), 1);
    let events = step_events(ProgressPhase::Delete, &reports[1]);
    assert_eq!(events.len(), 2);
    assert!(matches!(
        &events[0],
        WorkerEvent::Outcome { outcome: TaskOutcome::Changed { path } }
            if path == "Endfield_Data/Plugins/x86_64/libHAPI.dll"
    ));
}

#[test]
fn manifest_path_falls_back_when_alternate_is_empty() {
    assert_eq!(manifest_path(&Some("".to_string()), "primary/path"), "primary/path");
    assert_eq!(manifest_path(&Some("  ".to_string()), "primary/path"), "primary/path");
}

#[test]
fn manifest_path_prefers_non_empty_alternate() {
    assert_eq!(
        manifest_path(&Some(" alternate/path ".to_string()), "primary/path"),
        "alternate/path"
    );
}

#[test]
fn parse_safe_relative_path_rejects_escape_and_absolute_paths() {
    for raw in [
        "..\\outside.ab",
        "../outside.ab",
        "/../outside.ab",
        "C:\\outside.ab",
        "\\\\server\\share\\outside.ab",
        "file.bin:stream",
    ] {
        let error = parse_safe_relative_path("manifest path", raw).unwrap_err();
        assert!(error.message().contains("unsupported path"));
    }
}

#[test]
fn parse_safe_relative_path_normalizes_manifest_separators_and_leading_slashes() {
    assert_eq!(
        parse_safe_relative_path("manifest path", "Data\\sub/file.bin").unwrap().parts,
        vec!["Data", "sub", "file.bin"]
    );
    assert_eq!(
        parse_safe_relative_path("manifest path", "/Arknights.exe").unwrap().parts,
        vec!["Arknights.exe"]
    );
    assert_eq!(
        parse_safe_relative_path("manifest path", "\\Arknights_Data/boot.config").unwrap().parts,
        vec!["Arknights_Data", "boot.config"]
    );
}

#[test]
fn safe_paths_stay_below_their_root() {
    let root = path("/games/endfield");
    let relative = parse_safe_relative_path("manifest path", "Data/x.bin").unwrap();
    assert!(root.join(&relative).starts_with(&root));
    assert!(!relative.absolute);
}

#[test]
fn volume_classification_only_forces_copy_for_proven_differences() {
    let some = |volume: &str| Some(volume.to_string());
    assert_eq!(
        classify_reuse_mode(&some("volume-a"), &some("volume-a")),
        ReuseMode::HardlinkPreferred
    );
    assert_eq!(
        classify_reuse_mode(&some("volume-a"), &some("volume-b")),
        ReuseMode::CopyOnly
    );
    assert_eq!(
        classify_reuse_mode(&None, &some("volume-b")),
        ReuseMode::HardlinkPreferred
    );
}

#[test]
fn volume_keys_fall_back_to_the_first_component() {
    assert_eq!(storage_volume_key(&path("Games/x"), &Some("device:7".to_string())), "device:7");
    assert_eq!(storage_volume_key(&path("Games/x"), &None), "games");
    assert_eq!(storage_volume_key(&FilePath::empty(), &None), "");
}

#[test]
fn test_make_temp_write_path_stays_in_parent_dir() {
    let target = path("target").child("Endfield.exe");
    let temp = make_temp_write_path(&target, 7, 3).unwrap();
    assert_eq!(
        temp.parent().map(|dir| dir.text()),
        target.parent().map(|dir| dir.text())
    );
    let name = temp.file_name().unwrap();
    assert!(name.starts_with(".Endfield.exe.griffr.tmp."));
    assert_eq!(name, ".Endfield.exe.griffr.tmp.7.3");
}

#[test]
fn neighbours_of_a_file_lie_beside_it() {
    let file = path("game/asset.chk");
    assert_eq!(make_partial_download_path(&file).unwrap().text(), "game/.asset.chk.griffr.part");
    assert_eq!(volume_temp_path(&file).unwrap().text(), "game/.asset.chk.griffr-volume.part");
    assert!(make_partial_download_path(&FilePath::empty()).is_err());
    assert_eq!(
        volume_temp_path(&path("/")).unwrap_err().message(),
        "Invalid path: archive volume has no filename: /"
    );
    assert!(make_temp_write_path(&FilePath::empty(), 1, 1).is_err());
}

#[test]
fn working_places_lie_below_their_roots() {
    let staging = make_extract_staging_dir(&path("game"), "bundle", &None, 1, 2);
    let elsewhere =
        make_extract_staging_dir(&path("game"), "bundle", &Some(path("/scratch")), 1, 2);
    assert_ne!(staging.text(), elsewhere.text());
    assert!(elsewhere.starts_with(&path("/scratch")));
    let work = make_patch_work_path(&path("/scratch"), &path("game/final.bin"), 4);
    assert!(work.starts_with(&path("/scratch")));
}

#[test]
fn issues_are_judged_by_size_and_then_by_digest() {
    let seen = |size: u64, md5: &str| Some(Observed { size, md5: md5.to_string() });
    assert_eq!(build_issue(&None, "ab", Some(1)), Some(IssueKind::Missing));
    assert_eq!(build_issue(&seen(2, "ab"), "ab", Some(1)), Some(IssueKind::SizeMismatch));
    assert_eq!(build_issue(&seen(1, "cd"), "ab", Some(1)), Some(IssueKind::Md5Mismatch));
    assert_eq!(build_issue(&seen(1, "AB"), "ab", Some(1)), None);
    assert_eq!(build_issue(&seen(9, "ab"), "ab", None), None);
    assert_eq!(IssueKind::Missing.name(), "Missing");
}

#[test]
fn paths_are_joined_stripped_and_shown() {
    let base = path("/games");
    let file = base.join(&path("endfield/data.bin"));
    assert_eq!(file.text(), "/games/endfield/data.bin");
    assert_eq!(file.strip_prefix(&base).unwrap().text(), "endfield/data.bin");
    assert!(file.strip_prefix(&path("/other")).is_none());
    assert_eq!(base.join(&path("/absolute")).text(), "/absolute");
    assert_eq!(path("a.tar").with_extension("zip").text(), "a.zip");
    assert!(path("a/b").same(&path("a//b")));
}

#[test]
fn texts_and_paths_are_put_in_order() {
    assert!(text_before("a", "b"));
    assert!(text_before("a", "ab"));
    assert!(!text_before("b", "b"));
    assert_eq!(
        sorted_texts(&vec!["b".to_string(), "a".to_string(), "b".to_string()]),
        vec!["a", "b"]
    );
    assert!(path_before(&path("a/z"), &path("b")));
    assert!(!path_before(&path("b"), &path("a/z")));
    let sorted = sort_paths(vec![path("b"), path("a/b"), path("a"), path("b")]);
    let texts: Vec<String> = sorted.iter().map(|found| found.text()).collect();
    assert_eq!(texts, vec!["a", "a/b", "b", "b"]);
}

#[test]
fn numbers_and_texts_are_read_and_written() {
    assert_eq!(parse_number("0042"), Some(42));
    assert_eq!(parse_number("+42"), None);
    assert_eq!(parse_unsigned("+42"), Some(42));
    assert_eq!(parse_unsigned("18446744073709551615"), Some(u64::MAX));
    assert_eq!(parse_unsigned("18446744073709551616"), None);
    assert_eq!(parse_unsigned(""), None);
    assert_eq!(split_text("a//b", '/'), vec!["a", "", "b"]);
    assert_eq!(trim("\t a b \n"), "a b");
    assert_eq!(ascii_lowercase("AbÄ"), "abÄ");
    let mut out = String::new();
    push_padded3(&mut out, 7);
    push_padded4(&mut out, 12345);
    assert_eq!(out, "00712345");
}

#[test]
fn volumes_are_asked_for_at_the_nearest_path_that_exists() {
    let file = path("/games/new/file.bin");
    let names: Vec<String> = ancestors(&file).iter().map(|found| found.text()).collect();
    assert_eq!(names, vec!["/games/new/file.bin", "/games/new", "/games", "/"]);
    let probe = |exists: Vec<bool>| {
        existing_volume_probe(&file, &exists).map(|found| found.text())
    };
    assert_eq!(probe(vec![false, false, true, true]).as_deref(), Some("/games"));
    assert_eq!(probe(vec![true, true, true, true]).as_deref(), Some("/games/new/file.bin"));
    assert_eq!(probe(vec![false, false, false, false]), None);
    let above = existing_volume_probe(&file, &vec![false, false, true, true]).unwrap();
    assert_eq!(storage_volume_key(&above, &None), storage_volume_key(&file, &None));
}
