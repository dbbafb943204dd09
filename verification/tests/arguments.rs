use manga_tui_core::cli::{
    line_of_language, local_library_path, CliArgs, CliOutcome, Commands, Language,
};
use manga_tui_core::path::{LocalPath, RawPath};

fn language(name: &str, code: &str, unknown: bool) -> Language {
    Language { emoji: "*".to_string(), human_readable: name.to_string(), iso_code: code.to_string(), unknown }
}

#[test]
fn directories_go_before_the_command() {
    let command = Commands::Lang { print: true, set: None };
    let mut args = CliArgs::new().with_command(command);
    assert!(matches!(args.proccess_args(true, "manga-tui"), CliOutcome::PrintLanguages));
    args.config_dir = true;
    assert!(matches!(args.proccess_args(true, "manga-tui"), CliOutcome::PrintConfigDir));
    args.data_dir = true;
    assert!(matches!(args.proccess_args(true, "manga-tui"), CliOutcome::PrintDataDir));
    assert!(matches!(CliArgs::new().proccess_args(true, "manga-tui"), CliOutcome::PreferDefaultLanguage));
}

#[test]
fn unknown_language_codes_are_refused() {
    let args = CliArgs::new().with_command(Commands::Lang { print: false, set: Some("xx".to_string()) });
    assert!(matches!(args.proccess_args(true, "manga-tui"), CliOutcome::PreferLanguage(code) if code == "xx"));
    assert!(matches!(
        args.proccess_args(false, "manga-tui"),
        CliOutcome::UnknownLanguage(message) if message
            == "`xx` is not a valid ISO language code, run `manga-tui lang --print` to list available languages and their ISO codes"
    ));
}

#[test]
fn languages_are_listed_in_lower_case() {
    let languages = vec![language("ÉNGLISH", "en", false), language("Unknown", "", true)];
    let lines = CliArgs::print_available_languages(&languages);
    assert_eq!(vec!["The available languages are:", "* énglish | iso code : en"], lines);
    assert_eq!("* x | iso code : en", line_of_language(&languages[0], "x"));
}

#[test]
fn arguments_go_before_the_environment() {
    let mut args = CliArgs::new();
    let variable = Some(LocalPath::new("/env"));
    let home = Some(LocalPath::new("/home/me"));
    assert_eq!("Videos/mangas", local_library_path(&args, &None, &None).text);
    assert_eq!("/home/me/Videos/mangas", local_library_path(&args, &None, &home).text);
    assert_eq!("/Videos/mangas", local_library_path(&args, &None, &Some(LocalPath::new("/"))).text);
    assert_eq!("/env", local_library_path(&args, &variable, &home).text);
    args.local = Some(LocalPath::new("/arg"));
    assert_eq!("/arg", local_library_path(&args, &variable, &home).text);
}

#[test]
fn default_library_lies_below_a_home_that_is_no_text() {
    let home = LocalPath {
        text: "/home/\u{fffd}".to_string(),
        name: "\u{fffd}".to_string(),
        name_is_text: false,
        stem: None,
        extension: None,
        raw: Some(RawPath { bytes: b"/home/\xff".to_vec(), url: Some("file:///home/%FF".to_string()) }),
    };
    let path = local_library_path(&CliArgs::new(), &None, &Some(home));
    assert_eq!("mangas", path.name);
    let raw = path.raw.unwrap();
    assert_eq!(b"/home/\xff/Videos/mangas".to_vec(), raw.bytes);
    assert_eq!(Some("file:///home/%FF/Videos/mangas".to_string()), raw.url);
}
