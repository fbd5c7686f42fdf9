use vssh::error::Failure;
use vssh::path::{
    looks_like_uri, normalize_remote_path, resolve_goto_target, resolve_remote_path,
    split_goto_suffix, split_numeric_suffix,
};
use vssh::text::{join_with, same, split_at};
use vssh::translate::translate_code_args;

fn strings(items: &[&str]) -> Vec<String> {
    items.iter().map(|item| item.to_string()).collect()
}

fn translated(args: &[&str]) -> Vec<String> {
    translate_code_args("/home/me/app", &strings(args)).unwrap()
}

fn refused(args: &[&str]) -> String {
    translate_code_args("/home/me/app", &strings(args)).unwrap_err().message()
}

#[test]
fn resolves_no_args_to_cwd() {
    assert_eq!(
        translate_code_args("/home/me/app", &[]).unwrap(),
        vec!["/home/me/app"]
    );
}

#[test]
fn resolves_relative_paths() {
    assert_eq!(
        translate_code_args("/home/me/app", &["src/main.rs".to_string()]).unwrap(),
        vec!["/home/me/app/src/main.rs"]
    );
}

#[test]
fn resolves_goto_paths() {
    assert_eq!(
        translate_code_args(
            "/home/me/app",
            &["-g".to_string(), "src/main.rs:12:4".to_string()]
        )
        .unwrap(),
        vec!["-g", "/home/me/app/src/main.rs:12:4"]
    );
}

#[test]
fn preserves_allowed_flags() {
    assert_eq!(
        translate_code_args(
            "/home/me/app",
            &["-r".to_string(), "--wait".to_string(), ".".to_string()]
        )
        .unwrap(),
        vec!["-r", "--wait", "/home/me/app"]
    );
}

#[test]
fn rejects_unknown_flags() {
    assert!(translate_code_args("/home/me/app", &["--install-extension".to_string()]).is_err());
}

#[test]
fn normalizes_dot_dot() {
    assert_eq!(
        resolve_remote_path("/home/me/app/src", "../README.md"),
        "/home/me/app/README.md"
    );
}

#[test]
fn translates_every_supported_form() {
    assert_eq!(translated(&["."]), ["/home/me/app"]);
    assert_eq!(translated(&["lib"]), ["/home/me/app/lib"]);
    assert_eq!(translated(&["--reuse-window", "a"]), ["--reuse-window", "/home/me/app/a"]);
    assert_eq!(translated(&["-n", "a"]), ["-n", "/home/me/app/a"]);
    assert_eq!(translated(&["--new-window", "a"]), ["--new-window", "/home/me/app/a"]);
    assert_eq!(translated(&["--goto", "a:3"]), ["--goto", "/home/me/app/a:3"]);
    assert_eq!(
        translated(&["--diff", "a", "/b"]),
        ["--diff", "/home/me/app/a", "/b"]
    );
    assert_eq!(translated(&["--add", ".."]), ["--add", "/home/me"]);
    assert_eq!(translated(&["--wait", "a"]), ["--wait", "/home/me/app/a"]);
}

#[test]
fn treats_everything_after_double_dash_as_paths() {
    assert_eq!(
        translated(&["-r", "--", "-g", "--", "x"]),
        ["-r", "--", "/home/me/app/-g", "/home/me/app/--", "/home/me/app/x"]
    );
}

#[test]
fn takes_option_values_as_they_come() {
    assert_eq!(translated(&["-g", "--"]), ["-g", "/home/me/app/--"]);
    assert_eq!(translated(&["--add", "vscode-remote:x"]), ["--add", "vscode-remote:x"]);
}

#[test]
fn names_what_is_missing() {
    assert_eq!(refused(&["-g"]), "-g requires a file argument");
    assert_eq!(refused(&["--goto"]), "--goto requires a file argument");
    assert_eq!(refused(&["--diff"]), "--diff requires two file arguments");
    assert_eq!(refused(&["--diff", "a"]), "--diff requires two file arguments");
    assert_eq!(refused(&["--add"]), "--add requires a folder argument");
    assert_eq!(
        refused(&["a", "--install-extension", "b"]),
        "unsupported code flag `--install-extension`"
    );
    assert_eq!(refused(&["-"]), "unsupported code flag `-`");
}

#[test]
fn reports_the_first_error() {
    let error = translate_code_args("/w", &strings(&["--bad", "-g"])).unwrap_err();
    assert!(matches!(error, Failure::UnsupportedFlag { flag } if flag == "--bad"));
}

#[test]
fn wants_an_absolute_directory() {
    for cwd in ["", "home", "./x"] {
        let error = translate_code_args(cwd, &[]).unwrap_err();
        assert_eq!(error.message(), "cwd must be an absolute remote path");
        assert!(matches!(error, Failure::RelativeCwd));
    }
}

#[test]
fn composes_translations() {
    let mut both = translated(&["-r", "a"]);
    both.extend(translated(&["--diff", "b", "c", "d"]));
    assert_eq!(translated(&["-r", "a", "--diff", "b", "c", "d"]), both);
}

#[test]
fn passes_only_safe_arguments_on() {
    let arguments = ["-g", "x:1", "--add", "--odd:1", "../../../../..", "http://x", "--", "-r"];
    for argument in translated(&arguments) {
        let allowed = ["-g", "--add", "--"].contains(&argument.as_str());
        assert!(allowed || argument.starts_with('/') || looks_like_uri(&argument));
    }
}

#[test]
fn normalizes_paths() {
    assert_eq!(normalize_remote_path("/a//b/./c/../d/"), "/a/b/d");
    assert_eq!(normalize_remote_path(""), "/");
    assert_eq!(normalize_remote_path("/../.."), "/");
    assert_eq!(normalize_remote_path("a/.hidden/..."), "/a/.hidden/...");
    assert_eq!(normalize_remote_path("/ü/ñ/../é"), "/ü/é");
}

#[test]
fn normalizing_twice_is_normalizing_once() {
    for path in ["", "/", "a/b", "//a/../b//", "/x/./y/../../z"] {
        let once = normalize_remote_path(path);
        assert_eq!(normalize_remote_path(&once), once);
        assert_eq!(normalize_remote_path(&format!("{path}/name/..")), once);
    }
}

#[test]
fn recognizes_uris() {
    assert!(looks_like_uri("vscode-remote://ssh-remote+x/y"));
    assert!(looks_like_uri("a.b+c-1:"));
    assert!(!looks_like_uri("no colon"));
    assert!(!looks_like_uri(":x"));
    assert!(!looks_like_uri("a/b:3"));
    assert_eq!(resolve_remote_path("/w", "http://x/../y"), "http://x/../y");
    assert_eq!(resolve_remote_path("/w", "/a/../b"), "/a/../b");
    assert_eq!(resolve_remote_path("/w/", "."), "/w/");
}

#[test]
fn splits_numeric_suffixes() {
    assert_eq!(split_numeric_suffix("a:b:12"), Some(("a:b", "12")));
    assert_eq!(split_numeric_suffix("a:"), Some(("a", "")));
    assert_eq!(split_numeric_suffix("a:1x"), None);
    assert_eq!(split_numeric_suffix("a"), None);
}

#[test]
fn splits_goto_suffixes() {
    assert_eq!(split_goto_suffix("src/é.rs:12:4"), Some(("src/é.rs", ":12:4")));
    assert_eq!(split_goto_suffix("x:7"), Some(("x", ":7")));
    assert_eq!(split_goto_suffix("x:7:8:9"), Some(("x:7", ":8:9")));
    assert_eq!(split_goto_suffix("x::9"), Some(("x:", ":9")));
    assert_eq!(split_goto_suffix("x:7:"), None);
    assert_eq!(split_goto_suffix("x:y"), None);
    assert_eq!(resolve_goto_target("/w", "x/../y:1:2"), "/w/y:1:2");
    assert_eq!(resolve_goto_target("/w", "./y:"), "./y:".replace("./", "/w/"));
}

#[test]
fn splits_and_joins() {
    assert_eq!(split_at(";a;;b", ';'), ["", "a", "", "b"]);
    assert_eq!(split_at("", ';'), [""]);
    assert_eq!(join_with(&split_at("x/y//", '/'), '/'), "x/y//");
    assert_eq!(split_at(&join_with(&strings(&["p", "", "q"]), '/'), '/'), ["p", "", "q"]);
    assert!(same("aé", "aé"));
    assert!(!same("a", "ab"));
    assert!(!same("b", "a"));
}
