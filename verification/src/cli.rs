//! The command line: what its arguments ask for, and where the library lies.
use crate::anypath::{join, join_bytes, joined, joined_bytes};
use crate::outside::{lowercase, to_lowercase};
use crate::path::{opt_path, path_of, LocalPath, PathModel, RawPath, RawPathModel};
use crate::text::{chars_of, text_of, text_views};
use vstd::prelude::*;
use vstd::string::{StrSliceExecFns, StringExecFns};
use vstd::utf8::encode_utf8;

verus! {

/// The library below the home folder that is opened when none is given.
pub const DEFAULT_LOCAL_LIBRARY_RELATIVE_PATH: &'static str = "Videos/mangas";

#[derive(Clone, Debug, PartialEq, Eq)]
pub enum Commands {
    Lang { print: bool, set: Option<String> },
}

/// The arguments of the program.
#[derive(Clone, Debug, PartialEq, Eq)]
pub struct CliArgs {
    pub command: Option<Commands>,
    pub data_dir: bool,
    pub config_dir: bool,
    /// Read a local manga library, image folder, CBZ, CBR, or EPUB.
    pub local: Option<LocalPath>,
}

#[derive(Debug, Clone, PartialEq, Default)]
pub struct Credentials {
    pub access_token: String,
    pub client_id: String,
}

/// A language that the program knows.
#[derive(Debug)]
pub struct Language {
    pub emoji: String,
    pub human_readable: String,
    pub iso_code: String,
    /// Whether it only stands for languages that are not known.
    pub unknown: bool,
}

/// What the program does with its arguments.
#[derive(Debug)]
pub enum CliOutcome {
    /// Print the data directory and leave.
    PrintDataDir,
    /// Print the config directory and leave.
    PrintConfigDir,
    /// Print the available languages and leave.
    PrintLanguages,
    /// Print that this is no language code and leave.
    UnknownLanguage(String),
    /// Prefer the language with this code and keep running.
    PreferLanguage(String),
    /// Prefer the default language and keep running.
    PreferDefaultLanguage,
}

impl CliArgs {
    /// No argument given.
    pub fn new() -> (r: CliArgs)
        ensures
            r.command is None,
            !r.data_dir,
            !r.config_dir,
            r.local is None,
    {
        CliArgs { config_dir: false, command: None, data_dir: false, local: None }
    }

    /// The same arguments with `command` as the command.
    pub fn with_command(self, command: Commands) -> (r: CliArgs)
        ensures
            r.command == Some(command),
            r.data_dir == self.data_dir,
            r.config_dir == self.config_dir,
            r.local == self.local,
    {
        CliArgs {
            command: Some(command),
            data_dir: self.data_dir,
            config_dir: self.config_dir,
            local: self.local,
        }
    }

    /// The lines that list the available languages.
    pub fn print_available_languages(languages: &Vec<Language>) -> (r: Vec<String>)
        ensures
            text_views(r@) == language_lines(languages@),
    {
        let mut r: Vec<String> = Vec::new();
        r.push("The available languages are:".to_owned());
        let mut i: usize = 0;
        assert(text_views(r@) == language_lines(languages@.take(0)));
        while i < languages.len()
            invariant
                i <= languages.len(),
                text_views(r@) == language_lines(languages@.take(i as int)),
            decreases languages.len() - i,
        {
            let language: &Language = &languages[i];
            let ghost before = text_views(r@);
            proof {
                assert(languages@.take(i + 1).drop_last() == languages@.take(i as int));
            }
            if !language.unknown {
                let name: String = to_lowercase(language.human_readable.as_str());
                r.push(line_of_language(language, name.as_str()));
                assert(text_views(r@) == before.push(language_line(*language)));
            }
            i += 1;
        }
        assert(languages@.take(languages@.len() as int) == languages@);
        r
    }

    /// What the arguments ask for. `is_known_code` says whether the language
    /// code that they give, if any, is that of a known language, and `program`
    /// is the program's name.
    pub fn proccess_args(&self, is_known_code: bool, program: &str) -> (r: CliOutcome)
        ensures
            outcome_is(r, *self, is_known_code, program@),
    {
        if self.data_dir {
            return CliOutcome::PrintDataDir;
        }
        if self.config_dir {
            return CliOutcome::PrintConfigDir;
        }
        match &self.command {
            Some(Commands::Lang { print, set }) => {
                if *print {
                    return CliOutcome::PrintLanguages;
                }
                match set {
                    Some(code) => {
                        if is_known_code {
                            CliOutcome::PreferLanguage(code.clone())
                        } else {
                            let mut message: String = "`".to_owned();
                            message.append(code.as_str());
                            message.append("` is not a valid ISO language code, run `");
                            message.append(program);
                            message.append(
                                " lang --print` to list available languages and their ISO codes",
                            );
                            CliOutcome::UnknownLanguage(message)
                        }
                    },
                    None => CliOutcome::PreferDefaultLanguage,
                }
            },
            None => CliOutcome::PreferDefaultLanguage,
        }
    }
}

/// The line that lists a language with this name in lower case.
pub fn line_of_language(language: &Language, lower_name: &str) -> (r: String)
    ensures
        r@ == language.emoji@ + " "@ + lower_name@ + " | iso code : "@ + language.iso_code@,
{
    let mut line: String = language.emoji.clone();
    line.append(" ");
    line.append(lower_name);
    line.append(" | iso code : ");
    line.append(language.iso_code.as_str());
    line
}

/// The line that lists one language.
pub open spec fn language_line(language: Language) -> Seq<char> {
    language.emoji@ + " "@ + lowercase(language.human_readable@) + " | iso code : "@
        + language.iso_code@
}

/// A heading, then one line for each language that is not unknown.
pub open spec fn language_lines(languages: Seq<Language>) -> Seq<Seq<char>>
    decreases languages.len(),
{
    if languages.len() == 0 {
        seq!["The available languages are:"@]
    } else if languages.last().unknown {
        language_lines(languages.drop_last())
    } else {
        language_lines(languages.drop_last()).push(language_line(languages.last()))
    }
}

/// The message for a code that belongs to no language.
pub open spec fn unknown_language_message(code: Seq<char>, program: Seq<char>) -> Seq<char> {
    "`"@ + code + "` is not a valid ISO language code, run `"@ + program
        + " lang --print` to list available languages and their ISO codes"@
}

/// The data directory comes first, then the config directory, then the command.
pub open spec fn outcome_is(
    r: CliOutcome,
    args: CliArgs,
    is_known_code: bool,
    program: Seq<char>,
) -> bool {
    if args.data_dir {
        r is PrintDataDir
    } else if args.config_dir {
        r is PrintConfigDir
    } else {
        match args.command {
            None => r is PreferDefaultLanguage,
            Some(Commands::Lang { print, set }) => if print {
                r is PrintLanguages
            } else {
                match set {
                    None => r is PreferDefaultLanguage,
                    Some(code) => if is_known_code {
                        r matches CliOutcome::PreferLanguage(c) && c@ == code@
                    } else {
                        r matches CliOutcome::UnknownLanguage(m) && m@ == unknown_language_message(
                            code@,
                            program,
                        )
                    },
                }
            },
        }
    }
}

/// The path below a folder at which a library lies where none is given.
pub open spec fn default_library(folder: Option<PathModel>) -> PathModel {
    let below = "Videos/mangas"@;
    match folder {
        None => path_of(below),
        Some(folder) => PathModel {
            raw: match folder.raw {
                None => None,
                Some(raw) => Some(
                    RawPathModel {
                        bytes: joined_bytes(raw.bytes, encode_utf8(below)),
                        url: match raw.url {
                            Some(url) => Some(joined(url, below)),
                            None => None,
                        },
                    },
                ),
            },
            ..path_of(joined(folder.text, below))
        },
    }
}

/// The path of the library: that of the arguments, else that of the environment
/// `variable`, else the default one below the home folder, else the default one
/// below the current folder.
pub open spec fn library_path_of(
    given: Option<PathModel>,
    variable: Option<PathModel>,
    home: Option<PathModel>,
) -> PathModel {
    match (given, variable) {
        (Some(path), _) => path,
        (None, Some(path)) => path,
        (None, None) => default_library(home),
    }
}

/// The path of the library where none is given.
fn default_path(home: &Option<LocalPath>) -> (r: LocalPath)
    ensures
        r@ == default_library(opt_path(*home)),
{
    let below: Vec<char> = chars_of(DEFAULT_LOCAL_LIBRARY_RELATIVE_PATH);
    match home {
        None => LocalPath::new(DEFAULT_LOCAL_LIBRARY_RELATIVE_PATH),
        Some(home) => {
            let text: Vec<char> = join(&chars_of(home.text.as_str()), &below);
            let mut path: LocalPath = LocalPath::new(text_of(&text).as_str());
            if let Some(raw) = &home.raw {
                let url: Option<String> = match &raw.url {
                    Some(url) => Some(text_of(&join(&chars_of(url.as_str()), &below))),
                    None => None,
                };
                let bytes: Vec<u8> = join_bytes(
                    &raw.bytes,
                    &DEFAULT_LOCAL_LIBRARY_RELATIVE_PATH.as_bytes_vec(),
                );
                path.raw = Some(RawPath { bytes, url });
            }
            path
        },
    }
}

/// The path of the library that is opened.
pub fn local_library_path(
    args: &CliArgs,
    variable: &Option<LocalPath>,
    home: &Option<LocalPath>,
) -> (r: LocalPath)
    ensures
        r@ == library_path_of(opt_path(args.local), opt_path(*variable), opt_path(*home)),
{
    if let Some(path) = &args.local {
        return path.copy();
    }
    if let Some(path) = variable {
        return path.copy();
    }
    default_path(home)
}

} // verus!
