use native_term_app::data_dir::{
    check_target, left_out, pointer, pointer_for, resolve, set_pointer, BadTarget, Contents, Inputs, NoPlace, Place,
    Pointer, Read, Source, ENV, HEADER, POINTER_FILE,
};

fn inputs() -> Inputs {
    Inputs {
        command_line: None,
        env: None,
        program_dir: r"C:\nt".into(),
        registry: None,
        app_data: Some(r"C:\AppData".into()),
    }
}

fn path(text: &str) -> Place {
    Place::Path(text.into())
}

fn joined(dir: &str, name: &str) -> Place {
    path(&std::path::Path::new(dir).join(name).to_string_lossy())
}

#[test]
fn order() {
    let mut i = inputs();
    let (place, source) = resolve(&i, &Read::Missing, true).unwrap();
    assert_eq!((place, source.name("AppData").as_str()), (joined(r"C:\nt", "data"), "program folder"));
    i.registry = Some(r"D:\reg".into());
    assert_eq!(resolve(&i, &Read::Missing, true).unwrap().0, path(r"D:\reg"));
    let read = Read::Text("# shared\ndata_dir = '../OneDrive/NativeTerm'\n".into());
    let (place, source) = resolve(&i, &read, true).unwrap();
    assert_eq!((place, source.name("AppData").as_str()), (Place::FromProgram("../OneDrive/NativeTerm".into()), POINTER_FILE));
    i.env = Some(r"E:\env".into());
    assert_eq!(resolve(&i, &read, true).unwrap().0, path(r"E:\env"));
    i.command_line = Some(r"F:\cli".into());
    assert_eq!(resolve(&i, &read, true).unwrap().0, path(r"F:\cli"));
}

#[test]
fn pointer_without_the_key_and_broken_pointer() {
    let (_, source) = resolve(&inputs(), &Read::Text("other = 1\n".into()), true).unwrap();
    assert_eq!(source.name("AppData"), "program folder");
    let broken = resolve(&inputs(), &Read::Text("data_dir = \n".into()), true);
    assert!(matches!(broken, Err(NoPlace::Broken(_))), "a broken pointer is reported, not skipped");
    assert_eq!(resolve(&inputs(), &Read::Failed("denied".into()), true), Err(NoPlace::Unreadable("denied".into())));
}

#[test]
fn pointers() {
    assert_eq!(pointer_for("--data-dir"), Pointer::Fixed);
    assert_eq!(pointer_for(ENV), Pointer::Fixed);
    assert_eq!(pointer_for("program folder"), Pointer::File);
    assert_eq!(pointer_for(POINTER_FILE), Pointer::File);
    assert_eq!(pointer_for(&Source::AppData.name("AppData")), Pointer::Registry);

    let text = set_pointer(&Read::Missing, r"D:\elsewhere").unwrap();
    assert!(text.starts_with(HEADER), "{text}");
    let (place, source) = resolve(&inputs(), &Read::Text(text), true).unwrap();
    assert_eq!((place, source), (Place::FromProgram(r"D:\elsewhere".into()), Source::PointerFile));
    // other keys in the file stay
    let text = set_pointer(&Read::Text("data_dir = 'x'\nother = 1\n".into()), r"D:\elsewhere").unwrap();
    assert!(text.contains("other = 1"), "{text}");
    assert_eq!(pointer(&text), Ok(Some(r"D:\elsewhere".to_string())));
    assert!(matches!(set_pointer(&Read::Text("data_dir = ".into()), "x"), Err(NoPlace::Broken(_))));
    assert_eq!(set_pointer(&Read::Failed("denied".into()), "x"), Err(NoPlace::Unreadable("denied".into())));
}

#[test]
fn numbers_and_switches_stay_in_the_file() {
    let before = "count = 1\nhalf = 0.5\non = true\nname = 'x'\n";
    let text = set_pointer(&Read::Text(before.into()), "D:/x").unwrap();
    for line in ["count = 1", "half = 0.5", "on = true", "name = \"x\""] {
        assert!(text.lines().any(|l| l == line), "{text}");
    }
    assert_eq!(pointer(&text), Ok(Some("D:/x".to_string())));
}

#[test]
fn a_file_nested_too_deep_is_written_all_the_same() {
    // a dotted key reads flat, and is written as tables within tables
    let deep = vec!["a"; 80].join(".");
    let text = format!("x = [1, {{ {deep} = 1 }}]\n");
    assert_eq!(pointer(&text), Ok(None));
    let text = set_pointer(&Read::Text(text), "D:/x").unwrap();
    assert!(text.contains("data_dir = \"D:/x\""), "{text}");
    assert!(pointer(&text).is_err(), "nested deeper than can be read");
}

#[test]
fn what_is_wrong_with_a_pointer_file_is_told() {
    let why = pointer("data_dir = ").unwrap_err();
    assert!(!why.is_empty());
    let read = Read::Text("data_dir = ".into());
    assert_eq!(set_pointer(&read, "x"), Err(NoPlace::Broken(why.clone())));
    assert_eq!(resolve(&inputs(), &read, true), Err(NoPlace::Broken(why)));
}

#[test]
fn a_pointer_of_another_kind_points_nowhere() {
    assert_eq!(pointer("data_dir = 5\n"), Ok(None));
    assert_eq!(pointer(""), Ok(None));
    assert!(pointer("not toml [").is_err());
}

#[test]
fn data_dir_targets() {
    let current = r"C:\t\data";
    let check = |new: &str, full: bool, found: Contents| check_target(current, new, full, &found);
    assert_eq!(check("relative", false, Contents::Missing), Err(BadTarget::NotFull));
    assert_eq!(check(current, true, Contents::Something), Err(BadTarget::Current));
    assert_eq!(check(r"C:\t\DATA\", true, Contents::Something), Err(BadTarget::Current), "same folder, other spelling");
    assert_eq!(check(r"C:\t\data\sub", true, Contents::Missing), Err(BadTarget::Nested));
    assert_eq!(check(r"C:\t", true, Contents::Something), Err(BadTarget::Nested));
    assert_eq!(check(r"C:\t\data2", true, Contents::Missing), Ok(()), "a sibling with a longer name");
    assert_eq!(check(r"C:\t\full", true, Contents::Empty), Ok(()), "empty");
    assert_eq!(check(r"C:\t\full", true, Contents::Something), Err(BadTarget::NotEmpty));
    assert_eq!(check(r"C:\t\full", true, Contents::Failed("x".into())), Err(BadTarget::Failed("x".into())));
    assert!(!BadTarget::Nested.describe().is_empty());
    assert_eq!(BadTarget::Failed("x".into()).describe(), "x");
}

#[test]
fn read_only_program_folder_falls_back_to_app_data() {
    let (place, source) = resolve(&inputs(), &Read::Missing, false).unwrap();
    assert_eq!((place, source), (joined(r"C:\AppData", "NativeTerm"), Source::AppData));
    let mut i = inputs();
    i.app_data = None;
    assert_eq!(resolve(&i, &Read::Missing, false), Err(NoPlace::NoAppData));
}

#[test]
fn what_is_not_copied() {
    assert!(left_out(true, "state.db-journal") && left_out(true, ".write-test-1"));
    assert!(!left_out(false, "state.db-journal") && !left_out(true, "commands.toml"));
}
