use image_render::paths::{path_components, path_is_absolute};
use image_render::whiteout::{classify_entry, strip_whiteout_prefix, EntryKind};
use image_render::{unpack, unpack_with_options, Plan, RenderError, Step, UnpackOptions};
use std::io::Write;

fn tar_of(entries: &[(&str, &[u8])]) -> Vec<u8> {
    let mut builder = tar::Builder::new(Vec::new());
    for (path, data) in entries {
        let mut header = tar::Header::new_gnu();
        header.set_path(path).unwrap();
        header.set_size(data.len() as u64);
        header.set_mode(0o640);
        header.set_cksum();
        builder.append(&header, *data).unwrap();
    }
    builder.into_inner().unwrap()
}

fn gz(data: &[u8]) -> Vec<u8> {
    let mut encoder = libflate::gzip::Encoder::new(Vec::new()).unwrap();
    encoder.write_all(data).unwrap();
    encoder.finish().into_result().unwrap()
}

fn comps(parts: &[&str]) -> Vec<Vec<u8>> {
    parts.iter().map(|p| p.as_bytes().to_vec()).collect()
}

fn assert_extract(step: &Step, tar: &[u8], perms: bool, xattrs: bool) {
    match step {
        Step::Extract { archive, options } => {
            assert_eq!(archive.as_slice(), tar);
            assert_eq!(options.permissions_preserved(), perms);
            assert_eq!(options.xattrs_unpacked(), xattrs);
        }
        other => panic!("expected an extraction, got {:?}", other),
    }
}

fn assert_remove(step: &Step, parts: &[&str]) {
    match step {
        Step::Remove(p) => assert_eq!(p, &comps(parts)),
        other => panic!("expected a removal, got {:?}", other),
    }
}

fn assert_wrong_target(plan: &Plan, target: &[u8]) {
    assert!(plan.steps.is_empty());
    match &plan.outcome {
        Err(RenderError::WrongTargetPath(p)) => assert_eq!(p.as_slice(), target),
        other => panic!("expected a wrong target, got {:?}", other),
    }
}

#[test]
fn relative_target_is_rejected_by_both_entry_points() {
    let layers = vec![gz(&tar_of(&[("a.txt", b"x")]))];
    let plan = unpack(&layers, b"relative/dir", true);
    assert_wrong_target(&plan, b"relative/dir");
    let plan = unpack_with_options(&layers, b"relative/dir", true, UnpackOptions::new());
    assert_wrong_target(&plan, b"relative/dir");
}

#[test]
fn missing_or_non_directory_target_is_rejected() {
    let layers = vec![gz(&tar_of(&[("a.txt", b"x")]))];
    let plan = unpack(&layers, b"/no/such/dir", false);
    assert_wrong_target(&plan, b"/no/such/dir");
    let plan = unpack_with_options(&layers, b"/etc/hostname", false, UnpackOptions::new());
    assert_wrong_target(&plan, b"/etc/hostname");
    let plan = unpack(&layers, b"", true);
    assert_wrong_target(&plan, b"");
}

#[test]
fn single_layer_of_regular_files_is_one_extraction() {
    let tar = tar_of(&[("a.txt", b"alpha"), ("dir/b.txt", b"beta")]);
    let plan = unpack(&[gz(&tar)], b"/target", true);
    assert!(plan.outcome.is_ok());
    assert_eq!(plan.steps.len(), 1);
    assert_extract(&plan.steps[0], &tar, true, true);
}

#[test]
fn whiteout_removes_shadowed_file_and_marker() {
    let lower = tar_of(&[("foo/bar.txt", b"hello")]);
    let upper = tar_of(&[("foo/.wh.bar.txt", b"")]);
    let plan = unpack(&[gz(&lower), gz(&upper)], b"/target", true);
    assert!(plan.outcome.is_ok());
    assert_eq!(plan.steps.len(), 4);
    assert_extract(&plan.steps[0], &lower, true, true);
    assert_extract(&plan.steps[1], &upper, true, true);
    assert_remove(&plan.steps[2], &["foo", "bar.txt"]);
    assert_remove(&plan.steps[3], &["foo", ".wh.bar.txt"]);
    for step in &plan.steps {
        if let Step::Remove(p) = step {
            assert_ne!(p, &comps(&["foo"]));
        }
    }
}

#[test]
fn whiteout_of_absent_name_still_asks_for_removal() {
    let only = tar_of(&[(".wh.ghost", b"")]);
    let plan = unpack(&[gz(&only)], b"/target", true);
    assert!(plan.outcome.is_ok());
    assert_eq!(plan.steps.len(), 3);
    assert_extract(&plan.steps[0], &only, true, true);
    assert_remove(&plan.steps[1], &["ghost"]);
    assert_remove(&plan.steps[2], &[".wh.ghost"]);
}

#[test]
fn opaque_marker_removes_nothing() {
    let only = tar_of(&[("dir/.wh..wh..opq", b""), ("dir/keep", b"k")]);
    let plan = unpack(&[gz(&only)], b"/target", true);
    assert!(plan.outcome.is_ok());
    assert_eq!(plan.steps.len(), 1);
    assert_extract(&plan.steps[0], &only, true, true);
}

#[test]
fn planning_twice_gives_the_same_steps() {
    let layers = vec![
        gz(&tar_of(&[("etc/conf", b"1"), ("bin/tool", b"2")])),
        gz(&tar_of(&[("etc/.wh.conf", b"")])),
    ];
    let first = unpack(&layers, b"/target", true);
    let second = unpack(&layers, b"/target", true);
    assert_eq!(format!("{:?}", first), format!("{:?}", second));
    assert_eq!(first.steps.len(), 4);
}

#[test]
fn switches_are_carried_to_every_extraction() {
    let tar = tar_of(&[("a.txt", b"a")]);
    let options = UnpackOptions::new().preserve_permissions(true).unpack_xattrs(false);
    let plan = unpack_with_options(&[gz(&tar), gz(&tar)], b"/target", true, options);
    assert!(plan.outcome.is_ok());
    assert_eq!(plan.steps.len(), 2);
    assert_extract(&plan.steps[0], &tar, true, false);
    assert_extract(&plan.steps[1], &tar, true, false);
    let plan = unpack_with_options(&[gz(&tar)], b"/target", true, UnpackOptions::new());
    assert_extract(&plan.steps[0], &tar, false, false);
}

#[test]
fn later_layer_overrides_earlier_one() {
    let base = tar_of(&[("a.txt", b"base")]);
    let over = tar_of(&[("a.txt", b"override")]);
    let plan = unpack(&[gz(&base), gz(&over)], b"/fresh", true);
    assert!(plan.outcome.is_ok());
    assert_eq!(plan.steps.len(), 2);
    assert_extract(&plan.steps[0], &base, true, true);
    assert_extract(&plan.steps[1], &over, true, true);
}

#[test]
fn layer_that_is_not_gzip_stops_the_stack() {
    let good = tar_of(&[("a.txt", b"a")]);
    let layers = vec![gz(&good), b"not gzip at all".to_vec(), gz(&good)];
    let plan = unpack(&layers, b"/target", true);
    assert_eq!(plan.steps.len(), 1);
    assert_extract(&plan.steps[0], &good, true, true);
    assert!(matches!(plan.outcome, Err(RenderError::Io(_))));
}

#[test]
fn unreadable_archive_is_extracted_then_fails() {
    let junk = vec![b'x'; 1024];
    let plan = unpack(&[gz(&junk)], b"/target", true);
    assert_eq!(plan.steps.len(), 1);
    assert_extract(&plan.steps[0], &junk, true, true);
    assert!(matches!(plan.outcome, Err(RenderError::Io(_))));
}

#[test]
fn no_layers_is_nothing_to_do() {
    let plan = unpack(&[], b"/target", true);
    assert!(plan.outcome.is_ok());
    assert!(plan.steps.is_empty());
}

#[test]
fn options_builder() {
    let o = UnpackOptions::new();
    assert!(!o.permissions_preserved());
    assert!(!o.xattrs_unpacked());
    let o = o.preserve_permissions(true);
    assert!(o.permissions_preserved());
    assert!(!o.xattrs_unpacked());
    let o = o.unpack_xattrs(true).preserve_permissions(false);
    assert!(!o.permissions_preserved());
    assert!(o.xattrs_unpacked());
    assert_eq!(UnpackOptions::default(), UnpackOptions::new());
}

#[test]
fn components_drop_root_empty_and_current_dir() {
    assert_eq!(path_components(b"/a//b/./c/"), comps(&["a", "b", "c"]));
    assert_eq!(path_components(b"./x/../y"), comps(&["x", "..", "y"]));
    assert_eq!(path_components(b""), comps(&[]));
    assert_eq!(path_components(b"/"), comps(&[]));
    assert!(path_is_absolute(b"/t"));
    assert!(!path_is_absolute(b"t/"));
}

#[test]
fn whiteout_prefix_is_removed_once() {
    assert_eq!(strip_whiteout_prefix(&b".wh..wh.x".to_vec()), b".wh.x".to_vec());
    assert_eq!(strip_whiteout_prefix(&b".wh.bar.txt".to_vec()), b"bar.txt".to_vec());
    assert_eq!(strip_whiteout_prefix(&b".wh.".to_vec()), b"".to_vec());
    assert_eq!(strip_whiteout_prefix(&b"plain".to_vec()), b"plain".to_vec());
    match classify_entry(b"./d/.wh..wh.x/") {
        EntryKind::Whiteout { shadowed, marker } => {
            assert_eq!(shadowed, comps(&["d", ".wh.x"]));
            assert_eq!(marker, comps(&["d", ".wh..wh.x"]));
        }
        other => panic!("expected a whiteout, got {:?}", other),
    }
}

#[test]
fn entries_without_a_whiteout_name_are_plain() {
    assert!(matches!(classify_entry(b"a/b"), EntryKind::Plain));
    assert!(matches!(classify_entry(b"a/.wh.x/.."), EntryKind::Plain));
    assert!(matches!(classify_entry(b"/"), EntryKind::Plain));
    assert!(matches!(classify_entry(b"a/.wh"), EntryKind::Plain));
    assert!(matches!(classify_entry(b"a/.wh..wh..opq"), EntryKind::OpaqueMarker));
}

#[test]
fn nested_whiteout_marker_shadows_prefixed_name() {
    let lower = tar_of(&[("d/x", b"keep")]);
    let upper = tar_of(&[("d/.wh..wh.x", b"")]);
    let plan = unpack(&[gz(&lower), gz(&upper)], b"/target", true);
    assert!(plan.outcome.is_ok());
    assert_eq!(plan.steps.len(), 4);
    assert_extract(&plan.steps[0], &lower, true, true);
    assert_remove(&plan.steps[2], &["d", ".wh.x"]);
    assert_remove(&plan.steps[3], &["d", ".wh..wh.x"]);
    for step in &plan.steps {
        if let Step::Remove(p) = step {
            assert_ne!(p, &comps(&["d", "x"]));
        }
    }
}

#[test]
fn error_messages() {
    assert_eq!(
        RenderError::WrongTargetPath(b"x".to_vec()).message(),
        "wrong target path: must be absolute path to existing directory"
    );
    let e = RenderError::Io(std::io::Error::new(std::io::ErrorKind::Other, "boom"));
    assert_eq!(e.message(), "io error");
}
