use library_loader::cse::{absorb, check, filename, lib_name};
use library_loader::text::{join, trimmed};
use library_loader::watcher::{archives, refresh_script};
use library_loader::{
    next_step, CSEResult, CseError, Ecad, Epw, EventKind, Extractor, Files, Format, FsEvent,
    Phase, Response, Step, Watcher, WatchError, WatcherEvent, CSE,
};
use std::cell::Cell;
use vstd::seq::Seq;
use std::io::{Cursor, Write};

fn zip_of(entries: &[(&str, &[u8])]) -> Vec<u8> {
    let mut w = zip::ZipWriter::new(Cursor::new(Vec::new()));
    for (name, data) in entries {
        w.start_file(name.to_string(), zip::write::SimpleFileOptions::default())
            .unwrap();
        w.write_all(data).unwrap();
    }
    w.finish().unwrap().into_inner()
}

fn ok_response(disposition: Option<&str>, body: Vec<u8>) -> Response {
    Response {
        status: 200,
        content_type: Some("application/x-zip".to_string()),
        content_disposition: disposition.map(|d| d.to_string()),
        body: Some(body),
    }
}

/// Keeps every entry under its own name, prefixed by the layout, refuses
/// one name, and counts the entries it is handed.
struct Counting {
    calls: Cell<usize>,
    refuse: Option<&'static str>,
}

impl Extractor for Counting {
    fn outcome(&self, _: Ecad, _: Seq<char>, _: Seq<u8>) -> Result<Seq<(Seq<char>, Seq<u8>)>, Seq<char>> {
        unreachable!("a specification item, never run")
    }

    fn extract(
        &self,
        ecad: Ecad,
        name: &String,
        data: &Vec<u8>,
    ) -> Result<Vec<(String, Vec<u8>)>, String> {
        self.calls.set(self.calls.get() + 1);
        if self.refuse == Some(name.as_str()) {
            return Err(format!("cannot place {}", name));
        }
        Ok(vec![(format!("{:?}/{}", ecad, name), data.clone())])
    }
}

/// Places every entry under one fixed name.
struct OneName;

impl Extractor for OneName {
    fn outcome(&self, _: Ecad, _: Seq<char>, _: Seq<u8>) -> Result<Seq<(Seq<char>, Seq<u8>)>, Seq<char>> {
        unreachable!("a specification item, never run")
    }

    fn extract(&self, _: Ecad, _: &String, data: &Vec<u8>) -> Result<Vec<(String, Vec<u8>)>, String> {
        Ok(vec![("same".to_string(), data.clone())])
    }
}

fn counting() -> Counting {
    Counting { calls: Cell::new(0), refuse: None }
}

fn entry_names(files: &Files) -> Vec<String> {
    files.entries().iter().map(|e| e.0.clone()).collect()
}

#[test]
fn disposition_header_gives_filename() {
    let h = Some("attachment; filename=\"LIB_Foo.zip\"".to_string());
    assert_eq!(filename(&h), "LIB_Foo.zip");
}

#[test]
fn missing_disposition_gives_placeholder() {
    assert_eq!(filename(&None), "unknown.zip");
}

#[test]
fn disposition_without_quotes_or_token() {
    assert_eq!(filename(&Some("filename=Bar.zip".to_string())), "Bar.zip");
    assert_eq!(filename(&Some("attachment;   filename=\"  x.zip \"  ".to_string())), "x.zip");
}

#[test]
fn lib_name_strips_prefix_and_suffix() {
    assert_eq!(lib_name("LIB_Foo.zip"), "Foo");
    assert_eq!(lib_name("Foo.zip"), "Foo");
    assert_eq!(lib_name("LIB_Foo"), "Foo");
    assert_eq!(lib_name("xLIB_Foo.zipx"), "xLIB_Foo.zipx");
}

#[test]
fn error_status_is_fetch_error() {
    let mut res = ok_response(None, b"PAYLOAD".to_vec());
    res.status = 404;
    let f = Format::new(Ecad::Zip, "/tmp/out".to_string());
    assert!(matches!(CSE::convert(&f, &res, &counting()), Err(CseError::Status(404))));
    res.status = 500;
    let k = Format::new(Ecad::KiCad, "/tmp/out".to_string());
    assert!(matches!(CSE::convert(&k, &res, &counting()), Err(CseError::Status(500))));
    res.status = 299;
    assert!(check(&res).is_ok());
}

#[test]
fn wrong_content_type_is_fetch_error() {
    let f = Format::new(Ecad::Zip, "/tmp/out".to_string());
    let mut res = ok_response(None, b"PAYLOAD".to_vec());
    res.content_type = Some("text/html".to_string());
    assert!(matches!(CSE::convert(&f, &res, &counting()), Err(CseError::ContentType)));
    res.content_type = None;
    assert!(matches!(CSE::convert(&f, &res, &counting()), Err(CseError::ContentType)));
}

#[test]
fn unread_body_is_fetch_error() {
    let f = Format::new(Ecad::Zip, "/tmp/out".to_string());
    let mut res = ok_response(None, Vec::new());
    res.body = None;
    assert!(matches!(CSE::convert(&f, &res, &counting()), Err(CseError::BodyCopy)));
}

#[test]
fn passthrough_keeps_body_under_filename() {
    let f = Format::new(Ecad::Zip, "/tmp/out".to_string());
    let res = ok_response(Some("attachment; filename=\"LIB_Foo.zip\""), b"abc".to_vec());
    let r: CSEResult = CSE::convert(&f, &res, &counting()).unwrap();
    assert_eq!(r.output_path, "/tmp/out");
    assert_eq!(r.files.len(), 1);
    assert_eq!(r.files.entries()[0].0, "LIB_Foo.zip");
    assert_eq!(r.files.entries()[0].1, b"abc".to_vec());
}

#[test]
fn archive_dispatch_visits_each_entry_once() {
    let body = zip_of(&[("a.lib", b"1"), ("b.dcm", b"22"), ("c/d.stp", b"333")]);
    let f = Format::new(Ecad::KiCad, "/tmp/out".to_string());
    let x = counting();
    let res = ok_response(Some("attachment; filename=\"LIB_Foo.zip\""), body);
    let r = CSE::convert(&f, &res, &x).unwrap();
    assert_eq!(x.calls.get(), 3);
    assert_eq!(r.output_path, "/tmp/out/Foo");
    assert_eq!(entry_names(&r.files), vec!["KiCad/a.lib", "KiCad/b.dcm", "KiCad/c/d.stp"]);
    assert_eq!(r.files.entries()[2].1, b"333".to_vec());
}

#[test]
fn entry_failure_aborts_whole_run() {
    let body = zip_of(&[("a", b"1"), ("b", b"2"), ("c", b"3")]);
    let f = Format::new(Ecad::Eagle, "/tmp/out".to_string());
    let x = Counting { calls: Cell::new(0), refuse: Some("b") };
    let r = CSE::unzip(&f, &"Foo".to_string(), body, &x);
    assert!(matches!(r, Err(CseError::Extraction(ref m)) if m == "cannot place b"));
    assert_eq!(x.calls.get(), 2);
}

#[test]
fn name_collision_is_reported() {
    let body = zip_of(&[("a", b"1"), ("b", b"2")]);
    let f = Format::new(Ecad::EasyEda, "/tmp/out/".to_string());
    let r = CSE::unzip(&f, &"Foo".to_string(), body, &OneName);
    assert!(matches!(r, Err(CseError::Collision(ref n)) if n == "same"));
}

#[test]
fn corrupt_archive_is_archive_error() {
    let f = Format::new(Ecad::Eagle, "/tmp/out".to_string());
    let x = counting();
    let res = ok_response(None, b"not a zip".to_vec());
    assert!(matches!(CSE::convert(&f, &res, &x), Err(CseError::Archive)));
    assert_eq!(x.calls.get(), 0);
}

#[test]
fn passthrough_never_reaches_dispatch() {
    let f = Format::new(Ecad::Zip, "/tmp/out".to_string());
    let body = zip_of(&[("a", b"1")]);
    let x = counting();
    assert!(matches!(CSE::unzip(&f, &"Foo".to_string(), body, &x), Err(CseError::Internal)));
    assert_eq!(x.calls.get(), 0);
}

#[test]
fn get_gives_one_outcome_per_format() {
    let formats = vec![
        Format::new(Ecad::Zip, "/tmp/raw".to_string()),
        Format::new(Ecad::KiCad, "/tmp/kicad".to_string()),
    ];
    let cse = CSE::new("tok", formats);
    let body = zip_of(&[("a", b"1")]);
    let res = ok_response(Some("attachment; filename=\"LIB_Part.zip\""), body);
    let out = cse.get(&res, &counting());
    assert_eq!(out.len(), 2);
    assert_eq!(out[0].as_ref().unwrap().output_path, "/tmp/raw");
    assert_eq!(out[1].as_ref().unwrap().output_path, "/tmp/kicad/Part");
}

#[test]
fn credential_is_base64_of_token() {
    let cse = CSE::new("user:secret", Vec::new());
    assert_eq!(cse.auth, "dXNlcjpzZWNyZXQ=");
    assert_eq!(cse.authorization(), "Basic dXNlcjpzZWNyZXQ=");
    assert_eq!(CSE::new("", Vec::new()).auth, "");
}

#[test]
fn url_appends_id() {
    let cse = CSE::new("t", Vec::new());
    let epw = Epw::from_text("ABC123\n").unwrap();
    assert_eq!(
        cse.url(&epw),
        "https://componentsearchengine.com/ga/model.php?partID=ABC123"
    );
}

#[test]
fn descriptor_first_line_is_id() {
    assert_eq!(Epw::from_text("  ABC123  \nrest").unwrap().id, "ABC123");
    assert_eq!(Epw::from_text("XYZ").unwrap().id, "XYZ");
    assert!(Epw::from_text("   \nABC").is_err());
    assert!(Epw::from_text("").is_err());
}

fn create(paths: &[&str]) -> Option<WatcherEvent> {
    Some(WatcherEvent::NotifyResult(Ok(FsEvent {
        kind: EventKind::CreateFile,
        paths: paths.iter().map(|p| p.to_string()).collect(),
    })))
}

fn processed(step: Step) -> Vec<String> {
    match step {
        Step::Process(v) => v,
        other => panic!("unexpected step {:?}", other),
    }
}

#[test]
fn other_extensions_are_ignored() {
    let paths = ["/tmp/drop/a.txt", "/tmp/drop/b.zipx", "/tmp/drop/.zip", "/tmp/drop/zip", "/tmp/drop/c.7z"];
    assert!(processed(next_step(create(&paths))).is_empty());
}

#[test]
fn zip_extension_in_any_case_triggers_once() {
    let paths = ["/tmp/drop/a.zip", "/tmp/drop/b.ZIP", "/tmp/drop/n.txt", "/tmp/drop/c.Zip"];
    assert_eq!(
        processed(next_step(create(&paths))),
        vec!["/tmp/drop/a.zip", "/tmp/drop/b.ZIP", "/tmp/drop/c.Zip"]
    );
}

#[test]
fn non_create_events_trigger_nothing() {
    let ev = Some(WatcherEvent::NotifyResult(Ok(FsEvent {
        kind: EventKind::Other,
        paths: vec!["/tmp/drop/a.zip".to_string()],
    })));
    assert!(processed(next_step(ev)).is_empty());
}

#[test]
fn stop_error_and_disconnect_steps() {
    assert!(matches!(next_step(Some(WatcherEvent::Stop)), Step::Exit));
    assert!(matches!(next_step(None), Step::Disconnected));
    let e = Some(WatcherEvent::NotifyResult(Err("boom".to_string())));
    assert!(matches!(next_step(e), Step::Report(ref m) if m == "boom"));
}

#[test]
fn archives_filter_keeps_order() {
    let v = vec!["x.zip".to_string(), "y".to_string(), "x.zip".to_string()];
    assert_eq!(archives(&v), vec!["x.zip", "x.zip"]);
}

#[test]
fn stop_is_idempotent() {
    let mut w = Watcher::new("t".to_string(), "/tmp/drop".to_string(), Vec::new(), true);
    assert!(!w.stop());
    assert_eq!(w.phase, Phase::Idle);
    assert!(w.start().is_ok());
    assert_eq!(w.start(), Err(WatchError::AlreadyRunning));
    assert!(w.stop());
    assert!(!w.stop());
    assert!(!w.is_running());
    assert_eq!(w.watch_path, "/tmp/drop");
}

#[test]
fn refresh_script_sits_two_levels_up() {
    assert_eq!(refresh_script("/lib/kicad/Foo"), "/lib/kicad/Foo/../../refresh_libraries.sh");
    assert_eq!(refresh_script("/tmp/out/"), "/tmp/out/../../refresh_libraries.sh");
}

#[test]
fn drop_scenario_passthrough_saves_body() {
    let epw = Epw::from_text("ABC123").unwrap();
    let cse = CSE::new("t", vec![Format::new(Ecad::Zip, "/tmp/out".to_string())]);
    assert!(cse.url(&epw).ends_with("ABC123"));
    let res = ok_response(Some("attachment; filename=\"Bar.zip\""), b"PAYLOAD".to_vec());
    let out = cse.get(&res, &counting());
    assert_eq!(out.len(), 1);
    let r = out[0].as_ref().unwrap();
    assert_eq!(r.output_path, "/tmp/out");
    assert_eq!(entry_names(&r.files), vec!["Bar.zip"]);
    assert_eq!(r.files.entries()[0].1, b"PAYLOAD".to_vec());
}

#[test]
fn drop_scenario_not_found_writes_nothing() {
    let cse = CSE::new("t", vec![Format::new(Ecad::Zip, "/tmp/out".to_string())]);
    let mut res = ok_response(Some("attachment; filename=\"Bar.zip\""), Vec::new());
    res.status = 404;
    res.content_type = Some("text/html".to_string());
    let out = cse.get(&res, &counting());
    assert!(matches!(out[0], Err(CseError::Status(404))));
    assert_eq!(processed(next_step(create(&["/tmp/drop/Next.zip"]))), vec!["/tmp/drop/Next.zip"]);
}

#[test]
fn files_refuse_duplicate_names() {
    let mut f = Files::new();
    assert!(f.insert("a".to_string(), vec![1]));
    assert!(!f.insert("a".to_string(), vec![2]));
    assert!(f.contains(&"a".to_string()));
    assert_eq!(f.len(), 1);
    assert_eq!(f.entries()[0].1, vec![1]);
}

#[test]
fn trimming_removes_unicode_white_space() {
    assert_eq!(trimmed("\u{A0}\u{0B} x y\u{3000}\n"), "x y");
    assert_eq!(trimmed("   "), "");
    assert_eq!(trimmed("a"), "a");
}

#[test]
fn join_places_one_separator() {
    assert_eq!(join("/tmp/out", "Foo"), "/tmp/out/Foo");
    assert_eq!(join("/tmp/out/", "Foo"), "/tmp/out/Foo");
    assert_eq!(join("", "Foo"), "Foo");
    assert_eq!(join("/tmp/out", "/abs"), "/abs");
}

#[test]
fn absorb_adds_outputs_in_order() {
    let mut f = Files::new();
    let out = vec![("x".to_string(), vec![1u8]), ("y".to_string(), vec![2u8])];
    assert!(absorb(&mut f, Ok(out)).is_ok());
    assert_eq!(entry_names(&f), vec!["x", "y"]);
    assert!(absorb(&mut f, Ok(Vec::new())).is_ok());
    assert_eq!(f.len(), 2);
}

#[test]
fn absorb_refusal_adds_nothing() {
    let mut f = Files::new();
    assert!(f.insert("x".to_string(), vec![1]));
    let r = absorb(&mut f, Err("bad entry".to_string()));
    assert!(matches!(r, Err(CseError::Extraction(ref m)) if m == "bad entry"));
    assert_eq!(entry_names(&f), vec!["x"]);
}

#[test]
fn absorb_taken_name_is_collision() {
    let mut f = Files::new();
    assert!(f.insert("x".to_string(), vec![1]));
    let out = vec![("y".to_string(), vec![2u8]), ("x".to_string(), vec![3u8])];
    assert!(matches!(absorb(&mut f, Ok(out)), Err(CseError::Collision(ref n)) if n == "x"));
    let mut g = Files::new();
    let dup = vec![("z".to_string(), vec![1u8]), ("z".to_string(), vec![2u8])];
    assert!(matches!(absorb(&mut g, Ok(dup)), Err(CseError::Collision(_))));
}

#[test]
fn empty_archive_gives_empty_file_set() {
    let f = Format::new(Ecad::KiCad, "/o".to_string());
    let x = counting();
    let r = CSE::unzip(&f, &"Foo".to_string(), zip_of(&[]), &x).unwrap();
    assert_eq!(r.files.len(), 0);
    assert_eq!(r.output_path, "/o/Foo");
    assert_eq!(x.calls.get(), 0);
}

#[test]
fn kicad_run_lands_under_library_name() {
    let f = Format::new(Ecad::KiCad, "/o".to_string());
    let res = ok_response(Some("attachment; filename=\"LIB_Foo.zip\""), zip_of(&[("a", b"1")]));
    let r = CSE::convert(&f, &res, &counting()).unwrap();
    assert_eq!(r.output_path, "/o/Foo");
    assert_eq!(entry_names(&r.files), vec!["KiCad/a"]);
}

#[test]
fn empty_body_is_archive_error() {
    let f = Format::new(Ecad::Eagle, "/o".to_string());
    let x = counting();
    assert!(matches!(CSE::unzip(&f, &"Foo".to_string(), Vec::new(), &x), Err(CseError::Archive)));
    assert_eq!(x.calls.get(), 0);
}
