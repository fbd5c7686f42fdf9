use vssh::error::Failure;
use vssh::program::{
    candidates_for, executable_candidates, has_path_separator, is_executable_file, FileState,
    Platform, ProgramSearch, SearchStep,
};

fn windows(pathext: &str) -> Platform {
    Platform::Windows { pathext: Some(pathext.to_string()) }
}

#[test]
fn keeps_explicit_program_extension() {
    assert_eq!(executable_candidates("code.cmd", &Platform::Other), vec!["code.cmd"]);
    assert_eq!(executable_candidates("code.cmd", &windows(".EXE")), vec!["code.cmd"]);
}

#[test]
fn adds_extensions_on_windows() {
    let default = Platform::Windows { pathext: None };
    assert_eq!(
        executable_candidates("code", &default),
        ["code.COM", "code.EXE", "code.BAT", "code.CMD", "code"]
    );
    assert_eq!(executable_candidates("code", &windows(";.X;;.Y")), ["code.X", "code.Y", "code"]);
    assert_eq!(executable_candidates("code", &windows("")), ["code"]);
    assert_eq!(executable_candidates("code", &Platform::Other), ["code"]);
}

#[test]
fn knows_what_an_extension_is() {
    let platform = windows(".X");
    for (name, extended) in
        [("a.b", true), (".a", false), ("..", false), ("a.", true), ("...", true), ("", false), (".", false)]
    {
        assert_eq!(
            executable_candidates(name, &platform),
            candidates_for(name, extended, &platform)
        );
    }
    assert_eq!(executable_candidates("d.x/code", &platform), ["d.x/code.X", "d.x/code"]);
}

#[test]
fn recognizes_paths() {
    assert!(has_path_separator("/usr/bin/code"));
    assert!(has_path_separator("bin\\code"));
    assert!(!has_path_separator("code"));
    assert!(!has_path_separator(""));
}

#[test]
fn knows_what_can_be_run() {
    assert!(!is_executable_file(FileState::NotAFile));
    assert!(!is_executable_file(FileState::Unreadable));
    assert!(!is_executable_file(FileState::Mode(0o100644)));
    assert!(is_executable_file(FileState::Mode(0o100645)));
    assert!(is_executable_file(FileState::Mode(0o100100)));
    assert!(is_executable_file(FileState::Mode(0o000010)));
    assert!(is_executable_file(FileState::NoMode));
}

/// Runs a search; `runs` says which files can be run. Gives what was looked
/// at, and the last step.
fn search(
    mut search: ProgramSearch,
    runs: &[(Option<usize>, &str)],
) -> (Vec<(Option<usize>, String)>, SearchStep) {
    let mut seen = Vec::new();
    let mut step = search.step();
    while let SearchStep::Probe { directory, name } = step {
        step = search.answer(runs.contains(&(directory, name.as_str())));
        seen.push((directory, name));
    }
    (seen, step)
}

#[test]
fn finds_the_first_file_that_can_be_run() {
    let start = || ProgramSearch::start("code", &windows(".A;.B"), Some(2)).unwrap();
    let (seen, step) = search(start(), &[(Some(1), "code"), (Some(0), "code.B")]);
    assert_eq!(seen, [(Some(0), "code.A".to_string()), (Some(0), "code.B".to_string())]);
    assert!(matches!(step, SearchStep::Found { directory: Some(0), name } if name == "code.B"));
    let (seen, step) = search(start(), &[(Some(1), "code.A")]);
    assert_eq!(seen.len(), 4);
    assert!(matches!(step, SearchStep::Found { directory: Some(1), name } if name == "code.A"));
}

#[test]
fn fails_where_nothing_can_be_run() {
    let (seen, step) = search(ProgramSearch::start("code", &Platform::Other, Some(3)).unwrap(), &[]);
    assert_eq!(seen.len(), 3);
    match step {
        SearchStep::Failed { error } => assert_eq!(
            error.message(),
            "local `code` not found in PATH; set --code-bin or VSSH_CODE to the VS Code CLI path"
        ),
        _ => panic!("nothing can be run"),
    }
    let (seen, _) = search(ProgramSearch::start("code", &Platform::Other, Some(0)).unwrap(), &[]);
    assert!(seen.is_empty());
}

#[test]
fn wants_a_search_path_for_names_only() {
    let error = ProgramSearch::start("code", &Platform::Other, None).unwrap_err();
    assert!(matches!(error, Failure::PathNotSet { .. }));
    assert_eq!(error.message(), "local `code` not found because PATH is not set");
    assert!(ProgramSearch::start("/bin/code", &Platform::Other, None).is_ok());
}

#[test]
fn runs_paths_as_they_are() {
    let (seen, step) = search(ProgramSearch::start("./code", &Platform::Other, None).unwrap(), &[]);
    assert!(seen.is_empty());
    assert!(matches!(step, SearchStep::Found { directory: None, name } if name == "./code"));
    let start = || ProgramSearch::start_with("b/code", false, &windows(".A;.B"), None).unwrap();
    let (seen, step) = search(start(), &[(None, "b/code.B")]);
    assert_eq!(seen.len(), 2);
    assert!(matches!(step, SearchStep::Found { directory: None, name } if name == "b/code.B"));
    let (seen, step) = search(start(), &[]);
    assert_eq!(seen.len(), 3);
    assert!(matches!(step, SearchStep::Found { directory: None, name } if name == "b/code"));
    let extended = ProgramSearch::start_with("b/code.cmd", true, &windows(".A"), None).unwrap();
    assert!(search(extended, &[]).0.is_empty());
}

#[test]
fn completes_paths_without_a_dot_on_windows() {
    for program in ["C:\\Tools\\code", "C:/Tools/code", "C:code", "bin\\code", "\\\\host\\share\\code"] {
        assert_eq!(
            executable_candidates(program, &windows(".COM;.CMD")),
            [format!("{program}.COM"), format!("{program}.CMD"), program.to_string()]
        );
    }
    let start = || ProgramSearch::start("C:\\Tools\\code", &windows(".COM;.CMD"), Some(1)).unwrap();
    let (seen, step) = search(start(), &[(None, "C:\\Tools\\code.CMD")]);
    assert_eq!(
        seen,
        [(None, "C:\\Tools\\code.COM".to_string()), (None, "C:\\Tools\\code.CMD".to_string())]
    );
    assert!(
        matches!(step, SearchStep::Found { directory: None, name } if name == "C:\\Tools\\code.CMD")
    );
    let (seen, step) = search(start(), &[]);
    assert_eq!(seen.len(), 3);
    assert!(matches!(step, SearchStep::Found { directory: None, name } if name == "C:\\Tools\\code"));
}

#[test]
fn runs_paths_with_an_extension_as_they_are() {
    for program in [
        "C:\\Users\\me\\AppData\\Local\\Programs\\Microsoft VS Code\\bin\\code.cmd",
        "C:/d.x/code.cmd",
        "\\code.cmd",
        "./code.",
    ] {
        assert_eq!(executable_candidates(program, &windows(".COM;.CMD")), [program]);
        let start = ProgramSearch::start(program, &windows(".COM;.CMD"), None).unwrap();
        let (seen, step) = search(start, &[]);
        assert!(seen.is_empty());
        assert!(matches!(step, SearchStep::Found { directory: None, name } if name == program));
    }
    assert_eq!(executable_candidates("C:code.cmd", &windows(".COM")), ["C:code.cmd"]);
}

#[test]
fn completes_file_names_in_directories_with_a_dot() {
    let platform = windows(".COM;.CMD");
    for program in [
        "d.x/code",
        "./code",
        "..\\code",
        "C:\\Users\\john.doe\\bin\\code",
        "c:d.x\\.code",
        "C:\\d.x/..",
    ] {
        assert_eq!(
            executable_candidates(program, &platform),
            [format!("{program}.COM"), format!("{program}.CMD"), program.to_string()]
        );
        let (seen, step) = search(ProgramSearch::start(program, &platform, None).unwrap(), &[]);
        assert_eq!(seen.len(), 3);
        assert!(matches!(step, SearchStep::Found { directory: None, name } if name == program));
        assert_eq!(executable_candidates(program, &Platform::Other), [program]);
    }
}
